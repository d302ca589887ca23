//! Unix file paths as strings.
//!
//! A path is taken apart into components: the root, then the names between the separators. Empty
//! names and names `.` behind the first do not count, so `a//b/./c/` has three components.

use crate::text::{
    char_index, char_index_is_first, chars_of, index_of_char, last_char_index, last_index_of_char,
    lex_is_order, lex_lt, opt_view, push_char, str_eq, str_lt, string_of, views,
};
use vstd::prelude::*;

verus! {

/// A path that starts at the root.
pub open spec fn is_absolute(p: Seq<char>) -> bool {
    p.len() > 0 && p[0] == '/'
}

/// Where the names of `p` stand that start at or after `i`: each one's start and end.
pub open spec fn spans_from(p: Seq<char>, i: int) -> Seq<(int, int)>
    decreases p.len() - i + 1,
    when 0 <= i
    via spans_from_decreases
{
    if i >= p.len() {
        Seq::empty()
    } else {
        let n = i + char_index(p.skip(i), '/');
        let rest = spans_from(p, n + 1);
        if n == i || (i > 0 && n == i + 1 && p[i] == '.') {
            rest
        } else {
            seq![(i, n)] + rest
        }
    }
}

#[via_fn]
proof fn spans_from_decreases(p: Seq<char>, i: int) {
    if i < p.len() {
        char_index_is_first(p.skip(i), '/');
    }
}

/// Where the names of `p` stand.
pub open spec fn spans(p: Seq<char>) -> Seq<(int, int)> {
    spans_from(p, 0)
}

/// The names of `p`.
pub open spec fn names(p: Seq<char>) -> Seq<Seq<char>> {
    Seq::new(spans(p).len(), |i: int| p.subrange(spans(p)[i].0, spans(p)[i].1))
}

/// The components of `p`: the root, where it starts there, and the names.
pub open spec fn components(p: Seq<char>) -> Seq<Seq<char>> {
    if is_absolute(p) {
        seq![seq!['/']] + names(p)
    } else {
        names(p)
    }
}

/// Two paths with the same components.
pub open spec fn same_path(p: Seq<char>, q: Seq<char>) -> bool {
    components(p) == components(q)
}

/// `base` is `p` or one of the directories above it.
pub open spec fn under(p: Seq<char>, base: Seq<char>) -> bool {
    components(base).is_prefix_of(components(p))
}

/// End of the last name of `p`, or of the root where there is none.
pub open spec fn body_end(p: Seq<char>) -> int {
    if spans(p).len() > 0 {
        spans(p).last().1
    } else if is_absolute(p) {
        1
    } else {
        0
    }
}

/// What is left of `p` when its first `k` components are gone.
pub open spec fn after(p: Seq<char>, k: int) -> Seq<char> {
    let first = if is_absolute(p) {
        k - 1
    } else {
        k
    };
    if k == 0 {
        p.take(body_end(p))
    } else if first < spans(p).len() {
        p.subrange(spans(p)[first].0, body_end(p))
    } else {
        Seq::empty()
    }
}

/// `p` relative to `base`, where it lies under it.
pub open spec fn relative(p: Seq<char>, base: Seq<char>) -> Option<Seq<char>> {
    if under(p, base) {
        Some(after(p, components(base).len() as int))
    } else {
        None
    }
}

/// `p` relative to `base`, or `p` itself where it does not lie under it.
pub open spec fn relative_or_self(p: Seq<char>, base: Seq<char>) -> Seq<char> {
    match relative(p, base) {
        Some(r) => r,
        None => p,
    }
}

/// `p` as seen from the directory `base`.
pub open spec fn joined(base: Seq<char>, p: Seq<char>) -> Seq<char> {
    if is_absolute(p) || base.len() == 0 {
        p
    } else if base.last() == '/' {
        base + p
    } else {
        base.push('/') + p
    }
}

/// The last name of `p`, where it names something in a directory.
pub open spec fn file_name(p: Seq<char>) -> Option<Seq<char>> {
    if names(p).len() == 0 || names(p).last() == ".."@ || names(p).last() == "."@ {
        None
    } else {
        Some(names(p).last())
    }
}

/// What follows the last dot of the file name, where something precedes that dot.
pub open spec fn extension(p: Seq<char>) -> Option<Seq<char>> {
    match file_name(p) {
        Some(name) => if last_char_index(name, '.') > 0 {
            Some(name.skip(last_char_index(name, '.') + 1))
        } else {
            None
        },
        None => None,
    }
}

/// The directory that holds `p`.
pub open spec fn parent(p: Seq<char>) -> Option<Seq<char>> {
    let n = spans(p).len();
    if n == 0 {
        None
    } else if n >= 2 {
        Some(p.take(spans(p)[n - 2].1))
    } else if is_absolute(p) {
        Some(p.take(1))
    } else {
        Some(Seq::empty())
    }
}

/// `p` with `ext` for the extension of its file name.
pub open spec fn with_extension(p: Seq<char>, ext: Seq<char>) -> Seq<char> {
    match file_name(p) {
        Some(name) => {
            let start = spans(p).last().0;
            let stem = if last_char_index(name, '.') > 0 {
                last_char_index(name, '.')
            } else {
                name.len() as int
            };
            p.take(start + stem).push('.') + ext
        },
        None => p,
    }
}

/// The spans lie one after the other inside the path.
proof fn spans_bounds(p: Seq<char>, i: int)
    requires
        0 <= i,
    ensures
        forall|k: int|
            0 <= k < spans_from(p, i).len() ==> i <= (#[trigger] spans_from(p, i)[k]).0
                && spans_from(p, i)[k].0 < spans_from(p, i)[k].1 && spans_from(p, i)[k].1 <= p.len(),
        forall|k: int, l: int|
            0 <= k < l < spans_from(p, i).len() ==> (#[trigger] spans_from(p, i)[k]).1 < (
            #[trigger] spans_from(p, i)[l]).0,
    decreases p.len() - i + 1,
{
    if i < p.len() {
        char_index_is_first(p.skip(i), '/');
        let n = i + char_index(p.skip(i), '/');
        spans_bounds(p, n + 1);
        let rest = spans_from(p, n + 1);
        let all = spans_from(p, i);
        assert forall|k: int| 0 <= k < all.len() implies i <= (#[trigger] all[k]).0 && all[k].0 < all[k].1
            && all[k].1 <= p.len() by {
            if all.len() > rest.len() && k > 0 {
                assert(all[k] == rest[k - 1]);
            } else if all.len() == rest.len() {
                assert(all[k] == rest[k]);
            }
        }
        assert forall|k: int, l: int| 0 <= k < l < all.len() implies (#[trigger] all[k]).1 < (
        #[trigger] all[l]).0 by {
            if all.len() > rest.len() {
                assert(all[l] == rest[l - 1]);
                if k > 0 {
                    assert(all[k] == rest[k - 1]);
                }
            } else {
                assert(all[k] == rest[k]);
                assert(all[l] == rest[l]);
            }
        }
    }
}

/// The directory that holds a path has a shorter path.
pub proof fn parent_is_shorter(p: Seq<char>)
    ensures
        parent(p) matches Some(q) ==> q.len() < p.len(),
{
    spans_bounds(p, 0);
    let n = spans(p).len();
    if n >= 2 {
        assert(spans_from(p, 0)[n - 2].1 < spans_from(p, 0)[n - 1].0);
        assert(spans_from(p, 0)[n - 1].0 < spans_from(p, 0)[n - 1].1);
    } else if n == 1 {
        let s = spans_from(p, 0)[0];
        assert(s.0 < s.1 && s.1 <= p.len());
        if is_absolute(p) {
            char_index_is_first(p.skip(0), '/');
            assert(p.skip(0)[0] == '/');
            assert(char_index(p.skip(0), '/') == 0);
            assert(spans_from(p, 0) == spans_from(p, 1));
            spans_bounds(p, 1);
        }
    }
}

/// Where the names stand, as integers of the machine.
pub open spec fn span_views(v: Seq<(usize, usize)>) -> Seq<(int, int)> {
    Seq::new(v.len(), |i: int| (v[i].0 as int, v[i].1 as int))
}

/// Where the names of a path stand.
pub fn path_spans(p: &Vec<char>) -> (r: Vec<(usize, usize)>)
    ensures
        span_views(r@) == spans(p@),
        forall|k: int| 0 <= k < r@.len() ==> (#[trigger] r@[k]).0 < r@[k].1 && r@[k].1 <= p@.len(),
        forall|k: int, l: int|
            0 <= k < l < r@.len() ==> (#[trigger] r@[k]).1 < (#[trigger] r@[l]).0,
{
    let mut r: Vec<(usize, usize)> = Vec::new();
    let mut i: usize = 0;
    assert(span_views(r@) + spans_from(p@, 0) =~= spans(p@));
    while i < p.len()
        invariant
            0 <= i <= p@.len() + 1,
            span_views(r@) + spans_from(p@, i as int) == spans(p@),
        decreases p@.len() + 1 - i,
    {
        let n: usize = index_of_char(p, '/', i);
        let ghost before = span_views(r@);
        let skip = n == i || (i > 0 && n == i + 1 && p[i] == '.');
        if !skip {
            r.push((i, n));
            assert(span_views(r@) =~= before.push((i as int, n as int)));
        }
        assert(span_views(r@) + spans_from(p@, n + 1) =~= before + spans_from(p@, i as int));
        if n == p.len() {
            assert(spans_from(p@, n + 1) =~= Seq::empty());
            assert(spans_from(p@, n as int) =~= Seq::empty());
            i = n;
        } else {
            i = n + 1;
        }
    }
    proof {
        assert(span_views(r@) + spans_from(p@, i as int) =~= span_views(r@));
        spans_bounds(p@, 0);
        assert forall|k: int| 0 <= k < r@.len() implies (#[trigger] r@[k]).0 < r@[k].1 && r@[k].1 <= p@.len() by {
            assert(spans_from(p@, 0)[k] == span_views(r@)[k]);
        }
        assert forall|k: int, l: int| 0 <= k < l < r@.len() implies (#[trigger] r@[k]).1 < (#[trigger] r@[l]).0 by {
            assert(spans_from(p@, 0)[k] == span_views(r@)[k]);
            assert(spans_from(p@, 0)[l] == span_views(r@)[l]);
        }
    }
    r
}

/// The components of a path.
pub fn path_components(p: &str) -> (r: Vec<String>)
    ensures
        views(r@) == components(p@),
{
    let v = chars_of(p);
    let spans_v = path_spans(&v);
    let mut r: Vec<String> = Vec::new();
    if v.len() > 0 && v[0] == '/' {
        r.push(string_of(&v, 0, 1));
        assert(v@.subrange(0, 1) =~= seq!['/']);
    }
    let ghost root = views(r@);
    let mut i: usize = 0;
    assert(names(p@).take(0) =~= Seq::empty());
    assert(views(r@) =~= root + names(p@).take(0));
    assert(root =~= if is_absolute(p@) { seq![seq!['/']] } else { Seq::empty() });
    while i < spans_v.len()
        invariant
            0 <= i <= spans_v@.len(),
            v@ == p@,
            span_views(spans_v@) == spans(p@),
            forall|k: int| 0 <= k < spans_v@.len() ==> (#[trigger] spans_v@[k]).0 < spans_v@[k].1 && spans_v@[k].1 <= v@.len(),
            views(r@) == root + names(p@).take(i as int),
        decreases spans_v@.len() - i,
    {
        let ghost before = views(r@);
        r.push(string_of(&v, spans_v[i].0, spans_v[i].1));
        assert(span_views(spans_v@)[i as int] == spans(p@)[i as int]);
        assert(views(r@) =~= before.push(names(p@)[i as int]));
        i = i + 1;
        assert(views(r@) =~= root + names(p@).take(i as int));
    }
    assert(names(p@).take(i as int) =~= names(p@));
    assert(views(r@) =~= components(p@));
    r
}

/// Whether `prefix` is the start of `list`.
fn is_list_prefix(prefix: &Vec<String>, list: &Vec<String>) -> (r: bool)
    ensures
        r == views(prefix@).is_prefix_of(views(list@)),
{
    if prefix.len() > list.len() {
        return false;
    }
    let mut i: usize = 0;
    while i < prefix.len()
        invariant
            0 <= i <= prefix@.len() <= list@.len(),
            forall|k: int| 0 <= k < i ==> views(prefix@)[k] == views(list@)[k],
        decreases prefix@.len() - i,
    {
        if !str_eq(prefix[i].as_str(), list[i].as_str()) {
            assert(views(prefix@)[i as int] != views(list@)[i as int]);
            assert(views(list@).subrange(0, prefix@.len() as int)[i as int] == views(list@)[i as int]);
            return false;
        }
        i = i + 1;
    }
    assert(views(list@).subrange(0, prefix@.len() as int) =~= views(prefix@));
    true
}

/// Whether `base` is `p` or one of the directories above it.
pub fn path_starts_with(p: &str, base: &str) -> (r: bool)
    ensures
        r == under(p@, base@),
{
    let a = path_components(base);
    let b = path_components(p);
    is_list_prefix(&a, &b)
}

/// Whether two paths have the same components.
pub fn path_eq(p: &str, q: &str) -> (r: bool)
    ensures
        r == same_path(p@, q@),
{
    let a = path_components(p);
    let b = path_components(q);
    let r = a.len() == b.len() && is_list_prefix(&a, &b);
    proof {
        assert(views(b@).subrange(0, b@.len() as int) =~= views(b@));
        assert(views(a@) == views(b@) ==> a@.len() == b@.len());
    }
    r
}

/// Number of components of a path.
pub fn path_depth(p: &str) -> (n: usize)
    ensures
        n == components(p@).len(),
{
    path_components(p).len()
}

/// What is left of `p` when its first `k` components are gone.
fn path_after(p: &str, k: usize) -> (r: String)
    requires
        k <= components(p@).len(),
    ensures
        r@ == after(p@, k as int),
{
    let v = chars_of(p);
    let s = path_spans(&v);
    let abs = v.len() > 0 && v[0] == '/';
    let end: usize = if s.len() > 0 {
        s[s.len() - 1].1
    } else if abs {
        1
    } else {
        0
    };
    proof {
        assert(span_views(s@) == spans(p@));
        if s@.len() > 0 {
            assert(span_views(s@)[s@.len() - 1] == spans(p@).last());
        }
        assert(end == body_end(p@));
    }
    if k == 0 {
        assert(v@.subrange(0, end as int) =~= p@.take(end as int));
        return string_of(&v, 0, end);
    }
    let first: usize = if abs {
        k - 1
    } else {
        k
    };
    if first < s.len() {
        proof {
            assert(span_views(s@)[first as int] == spans(p@)[first as int]);
            let last = s@.len() - 1;
            if first < last {
                assert(s@[first as int].1 < s@[last].0);
            }
        }
        string_of(&v, s[first].0, end)
    } else {
        String::new()
    }
}

/// `p` relative to `base`, where it lies under it.
pub fn strip_prefix(p: &str, base: &str) -> (r: Option<String>)
    ensures
        opt_view(r) == relative(p@, base@),
{
    if path_starts_with(p, base) {
        let k: usize = path_depth(base);
        Some(path_after(p, k))
    } else {
        None
    }
}

/// `p` relative to `base`, or `p` itself where it does not lie under it.
pub fn relative_to(p: &str, base: &str) -> (r: String)
    ensures
        r@ == relative_or_self(p@, base@),
{
    match strip_prefix(p, base) {
        Some(s) => s,
        None => p.to_string(),
    }
}

/// Whether a path starts at the root.
pub fn path_is_absolute(p: &str) -> (r: bool)
    ensures
        r == is_absolute(p@),
{
    let v = chars_of(p);
    v.len() > 0 && v[0] == '/'
}

/// `p` as seen from the directory `base`.
pub fn path_join(base: &str, p: &str) -> (r: String)
    ensures
        r@ == joined(base@, p@),
{
    if path_is_absolute(p) {
        return p.to_string();
    }
    let v = chars_of(base);
    if v.len() == 0 {
        return p.to_string();
    }
    let mut r = base.to_string();
    if v[v.len() - 1] != '/' {
        push_char(&mut r, '/');
    }
    r.append(p);
    r
}

/// The last name of a path, where it names something in a directory.
pub fn path_file_name(p: &str) -> (r: Option<String>)
    ensures
        opt_view(r) == file_name(p@),
{
    let v = chars_of(p);
    let s = path_spans(&v);
    if s.len() == 0 {
        return None;
    }
    let last: usize = s.len() - 1;
    let name = string_of(&v, s[last].0, s[last].1);
    proof {
        assert(span_views(s@)[last as int] == spans(p@)[last as int]);
        assert(names(p@).last() == name@);
    }
    if str_eq(name.as_str(), "..") || str_eq(name.as_str(), ".") {
        return None;
    }
    Some(name)
}

/// What follows the last dot of the file name, where something precedes that dot.
pub fn path_extension(p: &str) -> (r: Option<String>)
    ensures
        opt_view(r) == extension(p@),
{
    match path_file_name(p) {
        Some(name) => {
            let v = chars_of(name.as_str());
            let n: usize = v.len();
            match last_index_of_char(&v, '.') {
                Some(i) => if i > 0 {
                    assert(v@.subrange(i + 1, v@.len() as int) =~= name@.skip(i + 1));
                    Some(string_of(&v, i + 1, n))
                } else {
                    None
                },
                None => None,
            }
        },
        None => None,
    }
}

/// The directory that holds a path.
pub fn path_parent(p: &str) -> (r: Option<String>)
    ensures
        opt_view(r) == parent(p@),
{
    let v = chars_of(p);
    let s = path_spans(&v);
    if s.len() == 0 {
        return None;
    }
    if s.len() >= 2 {
        let k: usize = s.len() - 2;
        assert(span_views(s@)[k as int] == spans(p@)[k as int]);
        assert(v@.subrange(0, s@[k as int].1 as int) =~= p@.take(s@[k as int].1 as int));
        return Some(string_of(&v, 0, s[k].1));
    }
    if v[0] == '/' {
        assert(v@.subrange(0, 1) =~= p@.take(1));
        return Some(string_of(&v, 0, 1));
    }
    Some(String::new())
}

/// `p` with `ext` for the extension of its file name.
pub fn path_with_extension(p: &str, ext: &str) -> (r: String)
    ensures
        r@ == with_extension(p@, ext@),
{
    match path_file_name(p) {
        Some(name) => {
            let v = chars_of(p);
            let s = path_spans(&v);
            let last: usize = s.len() - 1;
            assert(span_views(s@)[last as int] == spans(p@)[last as int]);
            let start: usize = s[last].0;
            assert(names(p@).last() == name@);
            let nv = chars_of(name.as_str());
            let stem: usize = match last_index_of_char(&nv, '.') {
                Some(i) => if i > 0 {
                    i
                } else {
                    nv.len()
                },
                None => nv.len(),
            };
            let mut r = string_of(&v, 0, start + stem);
            assert(v@.subrange(0, start + stem) =~= p@.take(start + stem));
            push_char(&mut r, '.');
            r.append(ext);
            r
        },
        None => p.to_string(),
    }
}

// ── Order ───────────────────────────────────────────────────────────────────

/// The root stands before `.`, that before `..`, and that before any other name.
pub open spec fn component_class(c: Seq<char>) -> int {
    if c == seq!['/'] {
        0
    } else if c == "."@ {
        1
    } else if c == ".."@ {
        2
    } else {
        3
    }
}

/// The component `a` comes before the component `b`.
pub open spec fn component_lt(a: Seq<char>, b: Seq<char>) -> bool {
    component_class(a) < component_class(b) || (component_class(a) == 3 && component_class(b) == 3 && lex_lt(a, b))
}

/// Lists of components in the order of their first difference.
pub open spec fn components_lt(a: Seq<Seq<char>>, b: Seq<Seq<char>>) -> bool
    decreases a.len(),
{
    if b.len() == 0 {
        false
    } else if a.len() == 0 {
        true
    } else if component_lt(a[0], b[0]) {
        true
    } else if component_lt(b[0], a[0]) {
        false
    } else {
        components_lt(a.drop_first(), b.drop_first())
    }
}

/// The path `p` comes before the path `q`.
pub open spec fn path_before(p: Seq<char>, q: Seq<char>) -> bool {
    components_lt(components(p), components(q))
}

fn class_of(c: &str) -> (r: u8)
    ensures
        r == component_class(c@),
{
    proof {
        reveal_strlit("/");
        assert("/"@ =~= seq!['/']);
    }
    if str_eq(c, "/") {
        0
    } else if str_eq(c, ".") {
        1
    } else if str_eq(c, "..") {
        2
    } else {
        3
    }
}

fn is_component_lt(a: &str, b: &str) -> (r: bool)
    ensures
        r == component_lt(a@, b@),
{
    let x: u8 = class_of(a);
    let y: u8 = class_of(b);
    x < y || (x == 3 && y == 3 && str_lt(a, b))
}

/// Whether the path `p` comes before the path `q`.
pub fn path_lt(p: &str, q: &str) -> (r: bool)
    ensures
        r == path_before(p@, q@),
{
    let x = path_components(p);
    let y = path_components(q);
    let ghost a = views(x@);
    let ghost b = views(y@);
    let mut i: usize = 0;
    assert(a.skip(0) =~= a && b.skip(0) =~= b);
    while i < x.len() && i < y.len()
        invariant
            0 <= i <= x@.len(),
            i <= y@.len(),
            a == views(x@),
            b == views(y@),
            a == components(p@),
            b == components(q@),
            components_lt(a, b) == components_lt(a.skip(i as int), b.skip(i as int)),
        decreases x@.len() - i,
    {
        assert(a.skip(i as int)[0] == x@[i as int]@ && b.skip(i as int)[0] == y@[i as int]@);
        if is_component_lt(x[i].as_str(), y[i].as_str()) {
            return true;
        }
        if is_component_lt(y[i].as_str(), x[i].as_str()) {
            return false;
        }
        assert(a.skip(i as int).drop_first() =~= a.skip(i + 1));
        assert(b.skip(i as int).drop_first() =~= b.skip(i + 1));
        i = i + 1;
    }
    i < y.len()
}

/// Of two components exactly one comes first, unless they are equal, and the order is transitive.
pub proof fn component_order(a: Seq<char>, b: Seq<char>, c: Seq<char>)
    ensures
        component_lt(a, b) ==> !component_lt(b, a),
        !component_lt(a, b) && !component_lt(b, a) ==> a == b,
        component_lt(a, b) && component_lt(b, c) ==> component_lt(a, c),
{
    lex_is_order(a, b, c);
}

/// Of two paths exactly one comes first, unless they have the same components.
pub proof fn components_total(a: Seq<Seq<char>>, b: Seq<Seq<char>>)
    ensures
        components_lt(a, b) ==> !components_lt(b, a),
        !components_lt(a, b) && !components_lt(b, a) ==> a == b,
        !components_lt(a, a),
    decreases a.len(),
{
    if a.len() > 0 {
        component_order(a[0], a[0], a[0]);
        components_total(a.drop_first(), a.drop_first());
    }
    if a.len() > 0 && b.len() > 0 {
        component_order(a[0], b[0], a[0]);
        components_total(a.drop_first(), b.drop_first());
        assert(a =~= seq![a[0]] + a.drop_first());
        assert(b =~= seq![b[0]] + b.drop_first());
    } else if a.len() == 0 && b.len() == 0 {
        assert(a =~= b);
    }
}

/// The order of paths is transitive.
pub proof fn components_transitive(a: Seq<Seq<char>>, b: Seq<Seq<char>>, c: Seq<Seq<char>>)
    ensures
        components_lt(a, b) && components_lt(b, c) ==> components_lt(a, c),
    decreases a.len(),
{
    if a.len() > 0 && b.len() > 0 && c.len() > 0 {
        components_transitive(a.drop_first(), b.drop_first(), c.drop_first());
        component_order(a[0], b[0], c[0]);
        component_order(b[0], c[0], a[0]);
        component_order(c[0], a[0], b[0]);
        component_order(c[0], b[0], a[0]);
        component_order(b[0], a[0], c[0]);
        component_order(a[0], c[0], b[0]);
    }
}

/// The order of paths is strict, total and transitive.
pub proof fn components_order(a: Seq<Seq<char>>, b: Seq<Seq<char>>, c: Seq<Seq<char>>)
    ensures
        components_lt(a, b) ==> !components_lt(b, a),
        !components_lt(a, b) && !components_lt(b, a) ==> a == b,
        !components_lt(a, b) && !components_lt(b, c) ==> !components_lt(a, c),
        components_lt(a, b) && components_lt(b, c) ==> components_lt(a, c),
{
    components_total(a, b);
    components_total(b, c);
    components_total(a, c);
    components_transitive(a, b, c);
    components_transitive(b, a, c);
    components_transitive(a, c, b);
    components_transitive(c, b, a);
}

// ── Laws ────────────────────────────────────────────────────────────────────

/// Spans moved by `o`.
pub open spec fn moved(s: Seq<(int, int)>, o: int) -> Seq<(int, int)> {
    Seq::new(s.len(), |i: int| (s[i].0 + o, s[i].1 + o))
}

/// The first of the separators before and behind a separator is the first before it, or that one.
proof fn first_separator(a: Seq<char>, b: Seq<char>)
    ensures
        char_index(a + seq!['/'] + b, '/') == char_index(a, '/'),
    decreases a.len(),
{
    let s = a + seq!['/'] + b;
    if a.len() == 0 {
        assert(s[0] == '/');
    } else {
        assert(s[0] == a[0]);
        assert(s.drop_first() =~= a.drop_first() + seq!['/'] + b);
        first_separator(a.drop_first(), b);
    }
}

/// Behind a prefix of `o` characters the names of `p` stand as in `p`. Only at its very start a name
/// `.` does not count.
proof fn spans_behind(q: Seq<char>, p: Seq<char>, o: int, j: int)
    requires
        0 < o,
        0 <= j,
        q.len() == o + p.len(),
        q.skip(o) == p,
        j > 0 || !(spans(p).len() > 0 && spans(p)[0] == (0int, 1int) && p[0] == '.'),
    ensures
        spans_from(q, o + j) == moved(spans_from(p, j), o),
    decreases p.len() - j + 1,
{
    if j < p.len() {
        assert(q.skip(o + j) =~= p.skip(j));
        char_index_is_first(p.skip(j), '/');
        let n = j + char_index(p.skip(j), '/');
        spans_behind(q, p, o, n + 1);
        let rest = spans_from(p, n + 1);
        assert(q[o + j] == p[j]) by {
            assert(q.skip(o)[j] == q[o + j]);
        }
        assert(spans_from(q, o + n + 1) == moved(rest, o));
        if n == j || (j > 0 && n == j + 1 && p[j] == '.') {
            assert(spans_from(p, j) == rest);
        } else {
            assert(spans_from(p, j) == seq![(j, n)] + rest);
            assert(!(n == j + 1 && p[j] == '.'));
            assert(moved(seq![(j, n)] + rest, o) =~= seq![(o + j, o + n)] + moved(rest, o));
        }
    } else {
        assert(moved(spans_from(p, j), o) =~= Seq::empty());
    }
}

/// The names before a separator stand as if nothing followed it.
proof fn spans_before(b: Seq<char>, p: Seq<char>, i: int)
    requires
        0 <= i <= b.len() + 1,
    ensures
        spans_from(b + seq!['/'] + p, i) == spans_from(b, i) + spans_from(b + seq!['/'] + p, (b.len() + 1) as int),
    decreases b.len() + 1 - i,
{
    let q = b + seq!['/'] + p;
    let tail = spans_from(q, (b.len() + 1) as int);
    if i == b.len() + 1 {
        assert(spans_from(b, i) + tail =~= tail);
    } else if i == b.len() {
        assert(q.skip(i)[0] == '/');
        assert(spans_from(q, i) == tail);
        assert(spans_from(b, i) + tail =~= tail);
    } else {
        assert(q.skip(i) =~= b.skip(i) + seq!['/'] + p);
        first_separator(b.skip(i), p);
        char_index_is_first(b.skip(i), '/');
        let n = i + char_index(b.skip(i), '/');
        spans_before(b, p, n + 1);
        assert(q[i] == b[i]);
        let rest = spans_from(b, n + 1);
        if n == i || (i > 0 && n == i + 1 && b[i] == '.') {
        } else {
            assert(seq![(i, n)] + (rest + tail) =~= (seq![(i, n)] + rest) + tail);
        }
    }
}

/// The names of a path that is put behind another: a name `.` at its start does not count.
pub open spec fn names_behind(p: Seq<char>) -> Seq<Seq<char>> {
    if names(p).len() > 0 && names(p)[0] == "."@ {
        names(p).drop_first()
    } else {
        names(p)
    }
}

/// The spans behind a separator.
proof fn spans_behind_separator(b: Seq<char>, p: Seq<char>)
    requires
        !is_absolute(p),
    ensures
        ({
            let q = b + seq!['/'] + p;
            let o = b.len() + 1;
            let dot = names(p).len() > 0 && names(p)[0] == "."@;
            spans_from(q, o as int) == moved(
                if dot {
                    spans(p).drop_first()
                } else {
                    spans(p)
                },
                o as int,
            )
        }),
{
    reveal_strlit(".");
    let q = b + seq!['/'] + p;
    let o = b.len() + 1;
    assert(q.skip(o as int) =~= p);
    spans_bounds(p, 0);
    if names(p).len() > 0 && names(p)[0] == "."@ {
        let s = spans_from(p, 0)[0];
        assert(p.subrange(s.0, s.1) == "."@);
        assert(s.1 == s.0 + 1);
        assert(p[s.0] == '.') by {
            assert(p.subrange(s.0, s.1)[0] == "."@[0]);
        }
        char_index_is_first(p.skip(0), '/');
        let n = char_index(p.skip(0), '/');
        assert(p.skip(0) =~= p);
        assert(n > 0);
        assert(spans_from(p, 0) == seq![(0int, n)] + spans_from(p, n + 1));
        assert(s == (0int, n));
        assert(n == 1);
        spans_behind(q, p, o as int, n + 1);
        assert(q.skip(o as int)[0] == q[o as int]);
        assert(spans_from(q, o as int) == spans_from(q, o + n + 1));
        assert(spans(p).drop_first() =~= spans_from(p, n + 1));
    } else {
        if spans(p).len() > 0 && spans(p)[0] == (0int, 1int) && p[0] == '.' {
            assert(names(p)[0] =~= "."@);
        }
        spans_behind(q, p, o as int, 0);
    }
}

/// The names of a path behind a separator follow those before it.
proof fn names_around_separator(b: Seq<char>, p: Seq<char>)
    requires
        !is_absolute(p),
    ensures
        names(b + seq!['/'] + p) == names(b) + names_behind(p),
{
    let q = b + seq!['/'] + p;
    let o = b.len() + 1;
    spans_before(b, p, 0);
    spans_behind_separator(b, p);
    spans_bounds(b, 0);
    spans_bounds(p, 0);
    let dot = names(p).len() > 0 && names(p)[0] == "."@;
    let kept = if dot {
        spans(p).drop_first()
    } else {
        spans(p)
    };
    let all = spans(q);
    assert(all == spans(b) + moved(kept, o as int));
    assert forall|k: int| 0 <= k < all.len() implies #[trigger] names(q)[k] == (names(b) + names_behind(p))[k] by {
        if k < spans(b).len() {
            let s = spans_from(b, 0)[k];
            assert(all[k] == s);
            assert(q.subrange(s.0, s.1) =~= b.subrange(s.0, s.1));
        } else {
            let m = k - spans(b).len();
            let s = kept[m];
            let at = if dot {
                m + 1
            } else {
                m
            };
            assert(s == spans_from(p, 0)[at]);
            assert(all[k] == (s.0 + o, s.1 + o));
            assert(q.subrange(s.0 + o, s.1 + o) =~= p.subrange(s.0, s.1));
        }
    }
    assert(names(q) =~= names(b) + names_behind(p));
}

/// The components of a joined path are those of the directory and then those of the path.
pub proof fn joined_components(base: Seq<char>, p: Seq<char>)
    requires
        base.len() > 0,
        !is_absolute(p),
    ensures
        components(joined(base, p)) == components(base) + names_behind(p),
        under(joined(base, p), base),
{
    let q = joined(base, p);
    if base.last() == '/' {
        let b = base.drop_last();
        let none = Seq::<char>::empty();
        assert(q =~= b + seq!['/'] + p);
        assert(base =~= b + seq!['/'] + none);
        names_around_separator(b, p);
        names_around_separator(b, none);
        assert(names_behind(none) =~= Seq::empty());
        assert(names(base) =~= names(b));
    } else {
        assert(q =~= base + seq!['/'] + p);
        names_around_separator(base, p);
    }
    assert(q[0] == base[0]);
    assert(components(q) =~= components(base) + names_behind(p));
    assert(components(base).is_prefix_of(components(q)));
}

/// From the start of a name on, a path has the names from that one on.
proof fn spans_from_name(p: Seq<char>, i: int, k: int)
    requires
        0 <= i,
        0 <= k < spans_from(p, i).len(),
    ensures
        spans_from(p, spans_from(p, i)[k].0) == spans_from(p, i).skip(k),
    decreases p.len() - i + 1,
{
    char_index_is_first(p.skip(i), '/');
    let n = i + char_index(p.skip(i), '/');
    let rest = spans_from(p, n + 1);
    if n == i || (i > 0 && n == i + 1 && p[i] == '.') {
        spans_from_name(p, n + 1, k);
    } else if k == 0 {
        assert(spans_from(p, i).skip(0) =~= spans_from(p, i));
    } else {
        spans_from_name(p, n + 1, k - 1);
        assert(spans_from(p, i)[k] == rest[k - 1]);
        assert((seq![(i, n)] + rest).skip(k) =~= rest.skip(k - 1));
    }
}

/// Behind the last name there is none.
proof fn spans_end(p: Seq<char>, i: int)
    requires
        0 <= i,
        spans_from(p, i).len() > 0,
    ensures
        spans_from(p, spans_from(p, i).last().1 + 1).len() == 0,
        spans_from(p, i).last().1 < p.len() ==> p[spans_from(p, i).last().1] == '/',
    decreases p.len() - i + 1,
{
    char_index_is_first(p.skip(i), '/');
    let n = i + char_index(p.skip(i), '/');
    let rest = spans_from(p, n + 1);
    if rest.len() > 0 {
        spans_end(p, n + 1);
        assert(spans_from(p, i).last() == rest.last());
    } else {
        assert(spans_from(p, i).last() == (i, n));
        if n < p.len() {
            assert(p.skip(i)[n - i] == p[n]);
        }
    }
}

/// A part of a path that starts with it or behind a separator, and ends with the last name, has the
/// same names.
proof fn spans_of_part(p: Seq<char>, s: int, e: int, j: int)
    requires
        0 <= s <= e <= p.len(),
        0 <= j <= e - s + 1,
        e < p.len() ==> p[e] == '/',
        spans_from(p, e + 1).len() == 0,
        j == 0 && s > 0 ==> e > s && p[s] != '/' && !(char_index(p.skip(s), '/') == 1 && p[s] == '.'),
    ensures
        moved(spans_from(p.subrange(s, e), j), s) == spans_from(p, s + j),
    decreases e - s + 1 - j,
{
    let r = p.subrange(s, e);
    if j >= e - s {
        assert(spans_from(r, j) =~= Seq::empty());
        if j == e - s {
            if e < p.len() {
                assert(p.skip(e)[0] == '/');
            }
            assert(spans_from(p, e) =~= Seq::empty());
        }
        assert(moved(spans_from(r, j), s) =~= Seq::empty());
        assert(spans_from(p, s + j) =~= Seq::empty());
    } else {
        let i = s + j;
        let a = r.skip(j);
        if e < p.len() {
            assert(p.skip(i) =~= a + seq!['/'] + p.skip(e + 1));
            first_separator(a, p.skip(e + 1));
        } else {
            assert(p.skip(i) =~= a);
        }
        char_index_is_first(a, '/');
        let n = j + char_index(a, '/');
        assert(i + char_index(p.skip(i), '/') == s + n);
        spans_of_part(p, s, e, n + 1);
        assert(r[j] == p[i]);
        let rest = spans_from(r, n + 1);
        if j == 0 && s > 0 {
            assert(n > 0) by {
                assert(a[0] == p[s]);
            }
        }
        if n == j || (j > 0 && n == j + 1 && r[j] == '.') {
        } else {
            assert(moved(seq![(j, n)] + rest, s) =~= seq![(s + j, s + n)] + moved(rest, s));
        }
    }
}

/// What follows the first components of a path has the other components.
proof fn components_after(p: Seq<char>, k: int)
    requires
        0 < k <= components(p).len(),
    ensures
        components(after(p, k)) == components(p).skip(k),
        !is_absolute(after(p, k)),
        names(after(p, k)).len() > 0 ==> names(after(p, k))[0] != "."@,
{
    reveal_strlit(".");
    let first = if is_absolute(p) {
        k - 1
    } else {
        k
    };
    let all = spans(p);
    let r = after(p, k);
    spans_bounds(p, 0);
    if first < all.len() {
        let s = spans_from(p, 0)[first].0;
        let e = body_end(p);
        spans_end(p, 0);
        spans_from_name(p, 0, first);
        assert(spans_from(p, 0).last() == spans_from(p, 0)[all.len() - 1]);
        assert(spans_from(p, 0)[first].1 <= e);
        if is_absolute(p) {
            starts_behind_root(p, first);
        } else {
            assert(spans_from(p, 0)[0].1 < spans_from(p, 0)[first].0);
        }
        assert(s > 0);
        name_is_kept(p, 0, first);
        spans_of_part(p, s, e, 0);
        let rs = spans(r);
        assert(moved(rs, s) == all.skip(first));
        assert(rs.len() == all.len() - first);
        assert(rs[0] == (0int, spans_from(p, 0)[first].1 - s)) by {
            assert(moved(rs, s)[0] == all.skip(first)[0]);
        }
        assert(r[0] == p[s]);
        assert(!is_absolute(r));
        assert forall|i: int| 0 <= i < rs.len() implies #[trigger] names(r)[i] == names(p)[first + i] by {
            assert(moved(rs, s)[i] == all.skip(first)[i]);
            let t = spans_from(p, 0)[first + i];
            assert(rs[i] == (t.0 - s, t.1 - s));
            assert(t.1 <= e) by {
                if first + i < all.len() - 1 {
                    assert(spans_from(p, 0)[first + i].1 < spans_from(p, 0)[all.len() - 1].0);
                }
            }
            assert(t.0 >= s) by {
                if i > 0 {
                    assert(spans_from(p, 0)[first].1 < spans_from(p, 0)[first + i].0);
                }
            }
            assert(r.subrange(t.0 - s, t.1 - s) =~= p.subrange(t.0, t.1));
        }
        assert(components(r) =~= components(p).skip(k));
        if names(r)[0] == "."@ {
            assert(names(r)[0].len() == 1);
            assert(r.subrange(rs[0].0, rs[0].1)[0] == "."@[0]);
            assert(false);
        }
    } else {
        assert(r =~= Seq::empty());
        assert(spans_from(r, 0) =~= Seq::empty());
        assert(components(r) =~= components(p).skip(k));
    }
}

/// The names of an absolute path start behind the root.
proof fn starts_behind_root(p: Seq<char>, k: int)
    requires
        is_absolute(p),
        0 <= k < spans(p).len(),
    ensures
        spans(p)[k].0 > 0,
{
    char_index_is_first(p.skip(0), '/');
    assert(p.skip(0)[0] == '/');
    assert(char_index(p.skip(0), '/') == 0);
    assert(spans_from(p, 0) == spans_from(p, 1));
    spans_bounds(p, 1);
    assert(spans_from(p, 1)[k].0 >= 1);
}

/// A name that counts is neither empty nor, behind the start, a single dot.
proof fn name_is_kept(p: Seq<char>, i: int, k: int)
    requires
        0 <= i,
        0 <= k < spans_from(p, i).len(),
        spans_from(p, i)[k].0 > 0,
    ensures
        ({
            let s = spans_from(p, i)[k];
            &&& s.0 < p.len()
            &&& s.1 == s.0 + char_index(p.skip(s.0), '/')
            &&& p[s.0] != '/'
            &&& !(char_index(p.skip(s.0), '/') == 1 && p[s.0] == '.')
        }),
    decreases p.len() - i + 1,
{
    char_index_is_first(p.skip(i), '/');
    let n = i + char_index(p.skip(i), '/');
    let rest = spans_from(p, n + 1);
    if n == i || (i > 0 && n == i + 1 && p[i] == '.') {
        name_is_kept(p, n + 1, k);
    } else if k == 0 {
        assert(p.skip(i)[0] == p[i]);
    } else {
        assert(spans_from(p, i)[k] == rest[k - 1]);
        name_is_kept(p, n + 1, k - 1);
    }
}

/// A path that is not empty has components.
pub proof fn has_components(p: Seq<char>)
    requires
        p.len() > 0,
    ensures
        components(p).len() > 0,
{
    if !is_absolute(p) {
        char_index_is_first(p.skip(0), '/');
        assert(p.skip(0)[0] == p[0]);
        let n = char_index(p.skip(0), '/');
        assert(n > 0);
        assert(spans_from(p, 0) == seq![(0int, n)] + spans_from(p, n + 1));
    }
}

/// Without what follows its last name a path is the same.
proof fn body_is_same(p: Seq<char>)
    ensures
        same_path(p.take(body_end(p)), p),
{
    spans_bounds(p, 0);
    let e = body_end(p);
    let r = p.take(e);
    if spans(p).len() > 0 {
        let all = spans_from(p, 0);
        spans_end(p, 0);
        assert(p.subrange(0, e) =~= r);
        assert(all.last() == all[all.len() - 1]);
        spans_of_part(p, 0, e, 0);
        assert(moved(spans(r), 0) =~= spans(r));
        assert(spans(r) == spans(p));
        assert forall|i: int| 0 <= i < all.len() implies #[trigger] names(r)[i] == names(p)[i] by {
            let t = all[i];
            assert(t.1 <= e) by {
                if i < all.len() - 1 {
                    assert(all[i].1 < all[all.len() - 1].0);
                }
            }
            assert(r.subrange(t.0, t.1) =~= p.subrange(t.0, t.1));
        }
        assert(names(r) =~= names(p));
        assert(r[0] == p[0]);
    } else if is_absolute(p) {
        char_index_is_first(r.skip(0), '/');
        assert(r.skip(0)[0] == '/');
        assert(spans_from(r, 1) =~= Seq::empty());
        assert(spans_from(r, 0) =~= Seq::empty());
        assert(names(r) =~= names(p));
        assert(r[0] == p[0]);
    } else {
        if p.len() > 0 {
            has_components(p);
        }
        assert(r =~= p);
    }
}

/// A path that is shown relative to a directory has only characters of that path.
pub proof fn relative_is_part(p: Seq<char>, base: Seq<char>)
    ensures
        forall|i: int| 0 <= i < relative_or_self(p, base).len() ==> p.contains(#[trigger] relative_or_self(p, base)[i]),
{
    let r = relative_or_self(p, base);
    let k = components(base).len() as int;
    spans_bounds(p, 0);
    let all = spans_from(p, 0);
    let e = body_end(p);
    assert(0 <= e <= p.len());
    let first = if is_absolute(p) {
        k - 1
    } else {
        k
    };
    let s = if !under(p, base) || k == 0 || first >= all.len() {
        0
    } else {
        all[first].0
    };
    if 0 < k && 0 <= first < all.len() {
        if first < all.len() - 1 {
            assert(all[first].1 < all[all.len() - 1].0);
        }
        assert(all[first].0 < all[first].1 <= e);
    }
    assert forall|i: int| 0 <= i < r.len() implies p.contains(#[trigger] r[i]) by {
        assert(r[i] == p[s + i]);
    }
}

/// A path that is shown relative to a directory leads back to the same file from there.
pub proof fn relative_leads_back(p: Seq<char>, base: Seq<char>)
    requires
        under(p, base),
    ensures
        relative(p, base) matches Some(rel) && same_path(joined(base, rel), p) && (base.len() > 0 ==> !is_absolute(
            rel,
        )),
{
    let k = components(base).len() as int;
    let rel = after(p, k);
    if base.len() == 0 {
        assert(spans_from(base, 0) =~= Seq::empty());
        body_is_same(p);
    } else {
        has_components(base);
        components_after(p, k);
        joined_components(base, rel);
        assert(components(rel) == names(rel));
        assert(names_behind(rel) == names(rel));
        assert(components(base) + components(p).skip(k) =~= components(p)) by {
            assert(components(p).subrange(0, k) == components(base));
        }
    }
}

/// A relative path that is joined to a directory is shown from there with its own names.
pub proof fn joined_is_shown(base: Seq<char>, p: Seq<char>)
    requires
        base.len() > 0,
        !is_absolute(p),
    ensures
        relative(joined(base, p), base) matches Some(rel) && names(rel) == names_behind(p),
{
    joined_components(base, p);
    has_components(base);
    let q = joined(base, p);
    let k = components(base).len() as int;
    components_after(q, k);
    assert((components(base) + names_behind(p)).skip(k) =~= names_behind(p));
}

/// A name without separators is the one name of its path.
proof fn plain_name(name: Seq<char>)
    requires
        name.len() > 0,
        !name.contains('/'),
    ensures
        names(name) == seq![name],
        !is_absolute(name),
{
    char_index_is_first(name.skip(0), '/');
    assert(name.skip(0) =~= name);
    let n = char_index(name.skip(0), '/');
    if n < name.len() {
        assert(name[n] == '/');
    }
    assert(name[0] != '/');
    assert(spans_from(name, n + 1) =~= Seq::empty());
    assert(spans_from(name, 0) =~= seq![(0int, n)]);
    assert(name.subrange(0, n) =~= name);
    assert(names(name) =~= seq![name]);
}

/// A file in a directory has the name by which it was put there, and is told by what follows the last dot of that
/// name, unless the name starts with that dot.
pub proof fn file_in_directory_has_its_name(dir: Seq<char>, name: Seq<char>, stem: Seq<char>, ext: Seq<char>)
    requires
        name.len() > 0,
        !name.contains('/'),
        name != "."@,
        name != ".."@,
    ensures
        file_name(joined(dir, name)) == Some(name),
        name == stem + seq!['.'] + ext && stem.len() > 0 && !ext.contains('.') ==> extension(joined(dir, name)) == Some(ext),
        name == seq!['.'] + ext && !ext.contains('.') ==> extension(joined(dir, name)) is None,
        !name.contains('.') ==> extension(joined(dir, name)) is None,
{
    plain_name(name);
    if dir.len() > 0 {
        joined_components(dir, name);
        let q = joined(dir, name);
        assert(names_behind(name) =~= seq![name]);
        assert(components(q).last() == name);
        if is_absolute(q) {
            assert(q[0] == dir[0]);
            assert(components(q).len() >= 2);
        }
        assert(names(q).last() == name);
    }
    crate::text::last_char_index_is_last(name, '.');
    let at = last_char_index(name, '.');
    if name == stem + seq!['.'] + ext && !ext.contains('.') {
        let n = stem.len() as int;
        assert(name[n] == '.');
        if at > n {
            assert(ext[at - n - 1] == name[at]);
        }
        assert(at == n);
        assert(name.skip(n + 1) =~= ext);
    }
    if name == seq!['.'] + ext && !ext.contains('.') {
        assert(name[0] == '.');
        if at > 0 {
            assert(ext[at - 1] == name[at]);
        }
    }
    if !name.contains('.') && at >= 0 {
        assert(name[at] == '.');
    }
}

} // verus!
