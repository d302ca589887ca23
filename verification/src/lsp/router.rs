//! Merging what several language servers found.

use crate::commands::find::{
    found_order, reference_order, Found, Reference, ReferenceMatch, SymbolMatch,
};
use crate::sorting::{in_order, rank, seen, sort, sorted_by, sorting_is_stable, sorting_permutes, sorting_sorted};
use vstd::prelude::*;

verus! {

/// A value that stands at a line of a file.
pub trait Placed: View {
    /// The path and the line of a value.
    spec fn place(v: Self::V) -> (Seq<char>, u32);

    /// Whether two values stand at the same line of the same file.
    fn same_place(&self, other: &Self) -> (r: bool)
        ensures
            r == (Self::place(self@) == Self::place(other@)),
    ;
}

/// The place of a symbol.
pub open spec fn found_place(f: Found) -> (Seq<char>, u32) {
    (f.path, f.line)
}

/// The place of a reference.
pub open spec fn reference_place(r: Reference) -> (Seq<char>, u32) {
    (r.path, r.line)
}

impl Placed for SymbolMatch {
    open spec fn place(v: Found) -> (Seq<char>, u32) {
        found_place(v)
    }

    fn same_place(&self, other: &SymbolMatch) -> (r: bool) {
        self.line == other.line && self.path == other.path
    }
}

impl Placed for ReferenceMatch {
    open spec fn place(v: Reference) -> (Seq<char>, u32) {
        reference_place(v)
    }

    fn same_place(&self, other: &ReferenceMatch) -> (r: bool) {
        self.line == other.line && self.path == other.path
    }
}

/// The places of a placed type's views.
pub open spec fn places<T: Placed>() -> spec_fn(T::V) -> (Seq<char>, u32) {
    |v: T::V| T::place(v)
}

/// Some item of `s` has the key `k`.
pub open spec fn has_key<A, K>(s: Seq<A>, key: spec_fn(A) -> K, k: K) -> bool {
    exists|i: int| 0 <= i < s.len() && key(#[trigger] s[i]) == k
}

/// The items of `s` whose key no earlier item has, in order.
pub open spec fn firsts<A, K>(s: Seq<A>, key: spec_fn(A) -> K) -> Seq<A>
    decreases s.len(),
{
    if s.len() == 0 {
        Seq::empty()
    } else {
        let rest = firsts(s.drop_last(), key);
        if has_key(s.drop_last(), key, key(s.last())) {
            rest
        } else {
            rest.push(s.last())
        }
    }
}

/// All items of all lists, in order.
pub open spec fn joined_lists<A>(lists: Seq<Seq<A>>) -> Seq<A>
    decreases lists.len(),
{
    if lists.len() == 0 {
        Seq::empty()
    } else {
        joined_lists(lists.drop_last()) + lists.last()
    }
}

/// The views of the items of lists.
pub open spec fn seen_lists<T: View>(v: Seq<Vec<T>>) -> Seq<Seq<T::V>> {
    Seq::new(v.len(), |i: int| seen(v[i]@))
}

/// The keys of the first items are those of all items.
pub proof fn firsts_keys<A, K>(s: Seq<A>, key: spec_fn(A) -> K)
    ensures
        forall|k: K| #[trigger] has_key(firsts(s, key), key, k) == has_key(s, key, k),
        forall|i: int, j: int|
            0 <= i < j < firsts(s, key).len() ==> key(#[trigger] firsts(s, key)[i]) != key(
                #[trigger] firsts(s, key)[j],
            ),
    decreases s.len(),
{
    if s.len() > 0 {
        let init = s.drop_last();
        firsts_keys(init, key);
        let f = firsts(init, key);
        let r = firsts(s, key);
        let last = s.last();
        assert(s[s.len() - 1] == last);
        assert forall|k: K| #[trigger] has_key(r, key, k) == has_key(s, key, k) by {
            assert(has_key(f, key, k) == has_key(init, key, k));
            if has_key(init, key, k) {
                let i = choose|i: int| 0 <= i < init.len() && key(#[trigger] init[i]) == k;
                assert(s[i] == init[i]);
                let j = choose|j: int| 0 <= j < f.len() && key(#[trigger] f[j]) == k;
                assert(r[j] == f[j]);
            } else if key(last) == k {
                assert(r[r.len() - 1] == last);
            } else {
                if has_key(r, key, k) {
                    let j = choose|j: int| 0 <= j < r.len() && key(#[trigger] r[j]) == k;
                    assert(f[j] == r[j]);
                }
                if has_key(s, key, k) {
                    let i = choose|i: int| 0 <= i < s.len() && key(#[trigger] s[i]) == k;
                    assert(init[i] == s[i]);
                }
            }
        }
        assert forall|i: int, j: int| 0 <= i < j < r.len() implies key(#[trigger] r[i]) != key(#[trigger] r[j]) by {
            assert(r[i] == f[i]);
            if j < f.len() {
                assert(r[j] == f[j]);
            } else {
                assert(!has_key(init, key, key(last)));
                assert(!has_key(f, key, key(last)));
            }
        }
    }
}

/// The first items are some of all items, in order.
proof fn firsts_in_order<A, K>(s: Seq<A>, key: spec_fn(A) -> K, lt: spec_fn(A, A) -> bool)
    requires
        in_order(s, lt),
    ensures
        in_order(firsts(s, key), lt),
        forall|i: int| 0 <= i < firsts(s, key).len() ==> s.contains(#[trigger] firsts(s, key)[i]),
    decreases s.len(),
{
    if s.len() > 0 {
        let init = s.drop_last();
        assert forall|i: int, j: int| 0 <= i < j < init.len() implies !lt(#[trigger] init[j], #[trigger] init[i]) by {
            assert(init[i] == s[i] && init[j] == s[j]);
        }
        firsts_in_order(init, key, lt);
        let f = firsts(init, key);
        let r = firsts(s, key);
        let n = s.len() - 1;
        assert forall|i: int| 0 <= i < r.len() implies s.contains(#[trigger] r[i]) by {
            if i < f.len() {
                assert(init.contains(f[i]));
                let k = choose|k: int| 0 <= k < init.len() && init[k] == f[i];
                assert(s[k] == r[i]);
            } else {
                assert(s[n] == r[i]);
            }
        }
        assert forall|i: int, j: int| 0 <= i < j < r.len() implies !lt(#[trigger] r[j], #[trigger] r[i]) by {
            assert(r[i] == f[i]);
            if j < f.len() {
                assert(r[j] == f[j]);
            } else {
                assert(init.contains(f[i]));
                let k = choose|k: int| 0 <= k < init.len() && init[k] == f[i];
                assert(s[k] == f[i]);
                assert(!lt(s[n], s[k]));
            }
        }
    }
}

/// A list without repeated keys keeps all its items.
proof fn firsts_of_distinct<A, K>(s: Seq<A>, key: spec_fn(A) -> K)
    requires
        forall|i: int, j: int| 0 <= i < j < s.len() ==> key(#[trigger] s[i]) != key(#[trigger] s[j]),
    ensures
        firsts(s, key) == s,
    decreases s.len(),
{
    if s.len() > 0 {
        let init = s.drop_last();
        let n = s.len() - 1;
        assert forall|i: int, j: int| 0 <= i < j < init.len() implies key(#[trigger] init[i]) != key(
            #[trigger] init[j],
        ) by {
            assert(init[i] == s[i] && init[j] == s[j]);
        }
        firsts_of_distinct(init, key);
        assert(!has_key(init, key, key(s.last()))) by {
            if has_key(init, key, key(s.last())) {
                let i = choose|i: int| 0 <= i < init.len() && key(#[trigger] init[i]) == key(s.last());
                assert(init[i] == s[i]);
                assert(key(s[i]) != key(s[n]));
            }
        }
        assert(init.push(s.last()) =~= s);
    } else {
        assert(firsts(s, key) =~= s);
    }
}

/// Moves the items of all lists into one.
fn flatten<T: View>(results: Vec<Vec<T>>) -> (r: Vec<T>)
    ensures
        seen(r@) == joined_lists(seen_lists(results@)),
{
    let mut merged: Vec<T> = Vec::new();
    let ghost lists = seen_lists(results@);
    assert(lists.take(0) =~= Seq::empty());
    assert(seen(merged@) =~= joined_lists(lists.take(0)));
    for list in it: results
        invariant
            it.seq() == results@,
            lists == seen_lists(it.seq()),
            seen(merged@) == joined_lists(lists.take(it.index())),
    {
        let ghost before = merged@;
        let ghost given = list@;
        let mut rest = list;
        merged.append(&mut rest);
        assert(seen(merged@) =~= seen(before) + seen(given));
        assert(lists.take(it.index() + 1).drop_last() =~= lists.take(it.index()));
        assert(lists.take(it.index() + 1).last() == seen(given));
    }
    assert(lists.take(lists.len() as int) =~= lists);
    merged
}

/// Whether some item stands at the place of `x`.
pub(crate) fn holds_place<T: Placed>(list: &Vec<T>, x: &T) -> (r: bool)
    ensures
        r == has_key(seen(list@), places::<T>(), T::place(x@)),
{
    let mut i: usize = 0;
    while i < list.len()
        invariant
            0 <= i <= list@.len(),
            forall|k: int| 0 <= k < i ==> T::place(#[trigger] seen(list@)[k]) != T::place(x@),
        decreases list@.len() - i,
    {
        if list[i].same_place(x) {
            assert(places::<T>()(seen(list@)[i as int]) == T::place(x@));
            return true;
        }
        i = i + 1;
    }
    false
}

/// Keeps the first item at each place.
fn dedup<T: Placed>(list: Vec<T>) -> (r: Vec<T>)
    ensures
        seen(r@) == firsts(seen(list@), places::<T>()),
{
    let ghost all = seen(list@);
    let ghost key = places::<T>();
    let mut kept: Vec<T> = Vec::new();
    assert(all.take(0) =~= Seq::empty());
    assert(seen(kept@) =~= firsts(all.take(0), key));
    for x in it: list
        invariant
            it.seq() == list@,
            all == seen(it.seq()),
            key == places::<T>(),
            seen(kept@) == firsts(all.take(it.index()), key),
    {
        let ghost i = it.index();
        let ghost v = x@;
        assert(all.take(i + 1).drop_last() =~= all.take(i));
        assert(all.take(i + 1).last() == v);
        proof {
            firsts_keys(all.take(i), key);
            assert(key(v) == T::place(v));
            assert(has_key(firsts(all.take(i), key), key, key(v)) == has_key(all.take(i), key, key(v)));
        }
        if !holds_place(&kept, &x) {
            let ghost before = seen(kept@);
            kept.push(x);
            assert(seen(kept@) =~= before.push(v));
        }
    }
    assert(all.take(all.len() as int) =~= all);
    kept
}

/// The merged symbols: by path and line, the first at each place.
pub open spec fn merged_symbols(lists: Seq<Seq<Found>>) -> Seq<Found> {
    firsts(sorted_by(joined_lists(lists), rank::<SymbolMatch>()), places::<SymbolMatch>())
}

/// The merged references: the first at each place, definitions first, then by path and line.
pub open spec fn merged_references(lists: Seq<Seq<Reference>>) -> Seq<Reference> {
    sorted_by(firsts(joined_lists(lists), places::<ReferenceMatch>()), rank::<ReferenceMatch>())
}

/// Merges symbol results from multiple language servers, sorted by path and line.
pub fn merge_symbol_results(results: Vec<Vec<SymbolMatch>>) -> (r: Vec<SymbolMatch>)
    ensures
        seen(r@) == merged_symbols(seen_lists(results@)),
{
    let merged = flatten(results);
    let ordered = sort(merged);
    dedup(ordered)
}

/// Merges reference results from multiple language servers, one for each path and line.
pub fn merge_reference_results(results: Vec<Vec<ReferenceMatch>>) -> (r: Vec<ReferenceMatch>)
    ensures
        seen(r@) == merged_references(seen_lists(results@)),
{
    let merged = flatten(results);
    let kept = dedup(merged);
    sort(kept)
}

// ── Laws ────────────────────────────────────────────────────────────────────

/// Merged symbols stand by path and line, no two at the same place, one at each place where a
/// server found one.
pub proof fn merged_symbols_sorted_and_distinct(lists: Seq<Seq<Found>>)
    ensures
        in_order(merged_symbols(lists), rank::<SymbolMatch>()),
        forall|i: int, j: int|
            0 <= i < j < merged_symbols(lists).len() ==> found_place(#[trigger] merged_symbols(lists)[i])
                != found_place(#[trigger] merged_symbols(lists)[j]),
        forall|f: Found|
            #[trigger] joined_lists(lists).contains(f) ==> exists|i: int|
                0 <= i < merged_symbols(lists).len() && found_place(#[trigger] merged_symbols(lists)[i])
                    == found_place(f),
{
    let lt = rank::<SymbolMatch>();
    let key = places::<SymbolMatch>();
    let all = joined_lists(lists);
    let s = sorted_by(all, lt);
    found_order();
    sorting_is_stable(all, lt);
    firsts_in_order(s, key, lt);
    firsts_keys(s, key);
    let r = merged_symbols(lists);
    assert(r == firsts(s, key));
    assert forall|i: int, j: int| 0 <= i < j < r.len() implies found_place(#[trigger] r[i]) != found_place(
        #[trigger] r[j],
    ) by {
        assert(key(r[i]) != key(r[j]));
    }
    assert forall|f: Found| #[trigger] joined_lists(lists).contains(f) implies exists|i: int|
        0 <= i < merged_symbols(lists).len() && found_place(#[trigger] merged_symbols(lists)[i]) == found_place(
            f,
        ) by {
        broadcast use vstd::seq_lib::group_to_multiset_ensures;
        assert(all.to_multiset().count(f) > 0);
        assert(s.to_multiset().count(f) > 0);
        assert(s.contains(f));
        let k = choose|k: int| 0 <= k < s.len() && s[k] == f;
        assert(key(s[k]) == key(f));
        assert(has_key(s, key, key(f)));
        assert(has_key(r, key, key(f)));
        let i = choose|i: int| 0 <= i < r.len() && key(#[trigger] r[i]) == key(f);
        assert(found_place(merged_symbols(lists)[i]) == found_place(f));
    }
}

/// Merging merged symbols again changes nothing.
pub proof fn merging_symbols_twice(lists: Seq<Seq<Found>>)
    ensures
        merged_symbols(seq![merged_symbols(lists)]) == merged_symbols(lists),
{
    let r = merged_symbols(lists);
    merged_symbols_sorted_and_distinct(lists);
    assert(seq![r].drop_last() =~= Seq::empty());
    assert(joined_lists(seq![r].drop_last()) =~= Seq::empty());
    assert(joined_lists(seq![r]) =~= r);
    sorting_sorted(r, rank::<SymbolMatch>());
    let key = places::<SymbolMatch>();
    assert forall|i: int, j: int| 0 <= i < j < r.len() implies key(#[trigger] r[i]) != key(#[trigger] r[j]) by {
        assert(found_place(r[i]) != found_place(r[j]));
    }
    firsts_of_distinct(r, key);
}

/// Merged references stand definitions first, then by path and line, no two at the same place.
pub proof fn merged_references_sorted_and_distinct(lists: Seq<Seq<Reference>>)
    ensures
        in_order(merged_references(lists), rank::<ReferenceMatch>()),
        forall|i: int, j: int|
            0 <= i < j < merged_references(lists).len() ==> reference_place(#[trigger] merged_references(lists)[i])
                != reference_place(#[trigger] merged_references(lists)[j]),
{
    let lt = rank::<ReferenceMatch>();
    let key = places::<ReferenceMatch>();
    let f = firsts(joined_lists(lists), key);
    let r = sorted_by(f, lt);
    reference_order();
    sorting_is_stable(f, lt);
    firsts_keys(joined_lists(lists), key);
    permuted_keys_distinct(f, r, key);
    assert forall|i: int, j: int| 0 <= i < j < r.len() implies reference_place(#[trigger] r[i]) != reference_place(
        #[trigger] r[j],
    ) by {
        assert(key(r[i]) != key(r[j]));
    }
}

/// A permutation of items with distinct keys has distinct keys.
proof fn permuted_keys_distinct<A, K>(s: Seq<A>, t: Seq<A>, key: spec_fn(A) -> K)
    requires
        s.to_multiset() == t.to_multiset(),
        forall|i: int, j: int| 0 <= i < j < s.len() ==> key(#[trigger] s[i]) != key(#[trigger] s[j]),
    ensures
        forall|i: int, j: int| 0 <= i < j < t.len() ==> key(#[trigger] t[i]) != key(#[trigger] t[j]),
{
    broadcast use vstd::seq_lib::group_to_multiset_ensures;
    assert forall|i: int, j: int| 0 <= i < j < t.len() implies key(#[trigger] t[i]) != key(#[trigger] t[j]) by {
        if key(t[i]) == key(t[j]) {
            assert(t.contains(t[i]) && t.contains(t[j]));
            assert(t.to_multiset().count(t[i]) > 0 && t.to_multiset().count(t[j]) > 0);
            assert(s.contains(t[i]) && s.contains(t[j]));
            let a = choose|a: int| 0 <= a < s.len() && s[a] == t[i];
            let b = choose|b: int| 0 <= b < s.len() && s[b] == t[j];
            assert(a == b);
            // One value stands twice in `t`, so it stands twice in `s`.
            let x = t[i];
            let u = t.remove(j);
            assert(u[i] == x);
            assert(u.contains(x));
            assert(t =~= u.insert(j, x));
            assert(t.to_multiset() =~= u.to_multiset().insert(x));
            assert(t.to_multiset().count(x) >= 2);
            assert(s.no_duplicates()) by {
                assert forall|p: int, q: int| 0 <= p < s.len() && 0 <= q < s.len() && p != q implies s[p] != s[q] by {
                    if p < q {
                        assert(key(s[p]) != key(s[q]));
                    } else {
                        assert(key(s[q]) != key(s[p]));
                    }
                }
            }
            s.lemma_multiset_has_no_duplicates();
            assert(s.to_multiset().contains(x));
        }
    }
}

proof fn firsts_are_some<A, K>(s: Seq<A>, key: spec_fn(A) -> K)
    ensures
        forall|i: int| 0 <= i < firsts(s, key).len() ==> s.contains(#[trigger] firsts(s, key)[i]),
    decreases s.len(),
{
    if s.len() > 0 {
        let init = s.drop_last();
        firsts_are_some(init, key);
        let r = firsts(s, key);
        let f = firsts(init, key);
        assert forall|i: int| 0 <= i < r.len() implies s.contains(#[trigger] r[i]) by {
            if i < f.len() {
                let k = choose|k: int| 0 <= k < init.len() && init[k] == f[i];
                assert(s[k] == r[i]);
            } else {
                assert(s[s.len() - 1] == r[i]);
            }
        }
    }
}

/// All lists together hold what each of them holds, one list after the other.
pub proof fn lists_are_joined<A>(lists: Seq<Seq<A>>)
    ensures
        joined_lists(lists) == lists.flatten_alt(),
        forall|i: int, j: int|
            0 <= i < lists.len() && 0 <= j < lists[i].len() ==> joined_lists(lists).contains(#[trigger] lists[i][j]),
    decreases lists.len(),
{
    if lists.len() > 0 {
        let init = lists.drop_last();
        lists_are_joined(init);
        let all = joined_lists(lists);
        let before = joined_lists(init);
        assert forall|i: int, j: int| 0 <= i < lists.len() && 0 <= j < lists[i].len() implies all.contains(
            #[trigger] lists[i][j],
        ) by {
            if i < init.len() {
                assert(init[i] == lists[i]);
                assert(before.contains(init[i][j]));
                let k = choose|k: int| 0 <= k < before.len() && before[k] == init[i][j];
                assert(all[k] == lists[i][j]);
            } else {
                assert(all[before.len() + j] == lists[i][j]);
            }
        }
    }
}

/// Whatever any server found is among the merged symbols, by its path and line, and nothing that none
/// found is.
pub proof fn merging_keeps_all_symbols(lists: Seq<Seq<Found>>, i: int, j: int, k: int)
    requires
        0 <= i < lists.len(),
        0 <= j < lists[i].len(),
        0 <= k < merged_symbols(lists).len(),
    ensures
        exists|m: int|
            0 <= m < merged_symbols(lists).len() && (#[trigger] merged_symbols(lists)[m]).path == lists[i][j].path
                && merged_symbols(lists)[m].line == lists[i][j].line,
        lists.flatten_alt().contains(merged_symbols(lists)[k]),
{
    let lt = rank::<SymbolMatch>();
    let key = places::<SymbolMatch>();
    lists_are_joined(lists);
    merged_symbols_sorted_and_distinct(lists);
    let all = joined_lists(lists);
    let f = lists[i][j];
    assert(all.contains(f));
    let r = merged_symbols(lists);
    let m = choose|m: int| 0 <= m < r.len() && found_place(#[trigger] r[m]) == found_place(f);
    assert(r[m].path == f.path && r[m].line == f.line);
    let s = sorted_by(all, lt);
    firsts_are_some(s, key);
    assert(s.contains(r[k]));
    sorting_permutes(all, lt);
    let n = choose|n: int| 0 <= n < s.len() && s[n] == r[k];
    assert(all.contains(s[n]));
}

/// Whatever any server found is among the merged references, by its path and line, and nothing that none
/// found is.
pub proof fn merging_keeps_all_references(lists: Seq<Seq<Reference>>, i: int, j: int, k: int)
    requires
        0 <= i < lists.len(),
        0 <= j < lists[i].len(),
        0 <= k < merged_references(lists).len(),
    ensures
        exists|m: int|
            0 <= m < merged_references(lists).len() && (#[trigger] merged_references(lists)[m]).path == lists[i][j].path
                && merged_references(lists)[m].line == lists[i][j].line,
        lists.flatten_alt().contains(merged_references(lists)[k]),
{
    broadcast use vstd::seq_lib::group_to_multiset_ensures;
    let lt = rank::<ReferenceMatch>();
    let key = places::<ReferenceMatch>();
    lists_are_joined(lists);
    let all = joined_lists(lists);
    let kept = firsts(all, key);
    let r = sorted_by(kept, lt);
    firsts_keys(all, key);
    firsts_are_some(all, key);
    sorting_permutes(kept, lt);
    let f = lists[i][j];
    assert(all.contains(f));
    let n = choose|n: int| 0 <= n < all.len() && all[n] == f;
    assert(key(all[n]) == key(f));
    assert(has_key(all, key, key(f)));
    assert(has_key(kept, key, key(f)));
    let q = choose|q: int| 0 <= q < kept.len() && key(#[trigger] kept[q]) == key(f);
    assert(kept.contains(kept[q]));
    assert(kept.to_multiset().count(kept[q]) > 0);
    assert(r.contains(kept[q]));
    let m = choose|m: int| 0 <= m < r.len() && r[m] == kept[q];
    assert(r[m].path == f.path && r[m].line == f.line);
    assert(kept.contains(r[k]));
    let z = choose|z: int| 0 <= z < kept.len() && kept[z] == r[k];
    assert(all.contains(kept[z]));
}

/// Of several items with one key the first stays.
pub proof fn first_with_a_key_stays<A, K>(s: Seq<A>, key: spec_fn(A) -> K, i: int)
    requires
        0 <= i < s.len(),
        forall|j: int| 0 <= j < i ==> key(#[trigger] s[j]) != key(s[i]),
    ensures
        firsts(s, key).contains(s[i]),
    decreases s.len(),
{
    let init = s.drop_last();
    let r = firsts(s, key);
    if i < init.len() {
        assert forall|j: int| 0 <= j < i implies key(#[trigger] init[j]) != key(init[i]) by {
            assert(init[j] == s[j]);
        }
        first_with_a_key_stays(init, key, i);
        let f = firsts(init, key);
        let k = choose|k: int| 0 <= k < f.len() && f[k] == s[i];
        assert(r[k] == s[i]);
    } else {
        if has_key(init, key, key(s[i])) {
            let j = choose|j: int| 0 <= j < init.len() && key(#[trigger] init[j]) == key(s[i]);
            assert(init[j] == s[j]);
        }
        assert(r[r.len() - 1] == s[i]);
    }
}

} // verus!
