//! Stable sorting.

use vstd::prelude::*;

verus! {

/// `lt` is a strict weak order: it tells for some pairs which comes first, and being tied is as
/// good as being equal.
pub open spec fn is_order<T>(lt: spec_fn(T, T) -> bool) -> bool {
    &&& forall|a: T, b: T| #[trigger] lt(a, b) ==> !lt(b, a)
    &&& forall|a: T, b: T, c: T|
        #![trigger lt(a, b), lt(b, c)]
        #![trigger lt(a, b), lt(a, c)]
        #![trigger lt(b, c), lt(a, c)]
        !lt(a, b) && !lt(b, c) ==> !lt(a, c)
}

/// `x` in front of the first item of `s` that need not stand before it.
pub open spec fn inserted_by<T>(s: Seq<T>, x: T, lt: spec_fn(T, T) -> bool) -> Seq<T>
    decreases s.len(),
{
    if s.len() > 0 && lt(s[0], x) {
        seq![s[0]] + inserted_by(s.drop_first(), x, lt)
    } else {
        seq![x] + s
    }
}

/// The items of `s` in order, those that need not stand before each other as they came.
pub open spec fn sorted_by<T>(s: Seq<T>, lt: spec_fn(T, T) -> bool) -> Seq<T>
    decreases s.len(),
{
    if s.len() == 0 {
        s
    } else {
        inserted_by(sorted_by(s.drop_first(), lt), s[0], lt)
    }
}

/// No item has to stand before one that precedes it.
pub open spec fn in_order<T>(s: Seq<T>, lt: spec_fn(T, T) -> bool) -> bool {
    forall|i: int, j: int| 0 <= i < j < s.len() ==> !lt(#[trigger] s[j], #[trigger] s[i])
}

/// Neither of two items has to stand before the other.
pub open spec fn tied<T>(a: T, b: T, lt: spec_fn(T, T) -> bool) -> bool {
    !lt(a, b) && !lt(b, a)
}

/// Being tied with `z`.
pub open spec fn tied_with<T>(z: T, lt: spec_fn(T, T) -> bool) -> spec_fn(T) -> bool {
    |y: T| tied(y, z, lt)
}

/// The items of `s` that are tied with `z`, in order.
pub open spec fn ties<T>(s: Seq<T>, z: T, lt: spec_fn(T, T) -> bool) -> Seq<T> {
    s.filter(tied_with(z, lt))
}

proof fn inserted_len<T>(s: Seq<T>, x: T, lt: spec_fn(T, T) -> bool)
    ensures
        inserted_by(s, x, lt).len() == s.len() + 1,
    decreases s.len(),
{
    if s.len() > 0 && lt(s[0], x) {
        inserted_len(s.drop_first(), x, lt);
    }
}

/// What is inserted is `x` or was there.
proof fn inserted_item<T>(s: Seq<T>, x: T, lt: spec_fn(T, T) -> bool, i: int)
    requires
        0 <= i < inserted_by(s, x, lt).len(),
    ensures
        inserted_by(s, x, lt)[i] == x || (exists|k: int|
            0 <= k < s.len() && s[k] == inserted_by(s, x, lt)[i]),
    decreases s.len(),
{
    inserted_len(s, x, lt);
    let r = inserted_by(s, x, lt);
    if s.len() > 0 && lt(s[0], x) {
        if i == 0 {
            assert(s[0] == r[i]);
        } else {
            let t = s.drop_first();
            inserted_len(t, x, lt);
            inserted_item(t, x, lt, i - 1);
            assert(r[i] == inserted_by(t, x, lt)[i - 1]);
            if r[i] != x {
                let k = choose|k: int| 0 <= k < t.len() && t[k] == inserted_by(t, x, lt)[i - 1];
                assert(s[k + 1] == r[i]);
            }
        }
    } else if i > 0 {
        assert(s[i - 1] == r[i]);
    }
}

proof fn inserted_in_order<T>(s: Seq<T>, x: T, lt: spec_fn(T, T) -> bool)
    requires
        in_order(s, lt),
        is_order(lt),
    ensures
        in_order(inserted_by(s, x, lt), lt),
    decreases s.len(),
{
    inserted_len(s, x, lt);
    let r = inserted_by(s, x, lt);
    if s.len() > 0 && lt(s[0], x) {
        let t = s.drop_first();
        inserted_len(t, x, lt);
        assert forall|i: int, j: int| 0 <= i < j < t.len() implies !lt(#[trigger] t[j], #[trigger] t[i]) by {
            assert(t[j] == s[j + 1] && t[i] == s[i + 1]);
        }
        inserted_in_order(t, x, lt);
        let u = inserted_by(t, x, lt);
        assert forall|i: int, j: int| 0 <= i < j < r.len() implies !lt(#[trigger] r[j], #[trigger] r[i]) by {
            assert(r[j] == u[j - 1]);
            if i == 0 {
                inserted_item(t, x, lt, j - 1);
                if u[j - 1] != x {
                    let k = choose|k: int| 0 <= k < t.len() && t[k] == u[j - 1];
                    assert(s[k + 1] == u[j - 1]);
                }
            } else {
                assert(r[i] == u[i - 1]);
            }
        }
    } else {
        assert forall|i: int, j: int| 0 <= i < j < r.len() implies !lt(#[trigger] r[j], #[trigger] r[i]) by {
            assert(r[j] == s[j - 1]);
            if i > 0 {
                assert(r[i] == s[i - 1]);
            } else if j > 1 {
                assert(!lt(s[j - 1], s[0]));
            }
        }
    }
}

proof fn inserted_multiset<T>(s: Seq<T>, x: T, lt: spec_fn(T, T) -> bool)
    ensures
        inserted_by(s, x, lt).to_multiset() == s.to_multiset().insert(x),
    decreases s.len(),
{
    broadcast use vstd::seq_lib::group_to_multiset_ensures;
    if s.len() > 0 && lt(s[0], x) {
        let t = s.drop_first();
        inserted_multiset(t, x, lt);
        assert(s =~= seq![s[0]] + t);
        vstd::seq_lib::lemma_multiset_commutative(seq![s[0]], inserted_by(t, x, lt));
        vstd::seq_lib::lemma_multiset_commutative(seq![s[0]], t);
        assert(inserted_by(s, x, lt).to_multiset() =~= s.to_multiset().insert(x));
    } else {
        vstd::seq_lib::lemma_multiset_commutative(seq![x], s);
        assert(seq![x] =~= Seq::empty().push(x));
        assert(inserted_by(s, x, lt).to_multiset() =~= s.to_multiset().insert(x));
    }
}

/// Filtering what has `x` in front.
pub proof fn filter_cons<T>(x: T, s: Seq<T>, p: spec_fn(T) -> bool)
    ensures
        (seq![x] + s).filter(p) == if p(x) {
            seq![x] + s.filter(p)
        } else {
            s.filter(p)
        },
{
    Seq::filter_distributes_over_add(seq![x], s, p);
    reveal_with_fuel(Seq::filter, 2);
    assert(seq![x].drop_last() =~= Seq::empty());
    if p(x) {
        assert(seq![x].filter(p) =~= seq![x]);
    } else {
        assert(seq![x].filter(p) =~= Seq::empty());
        assert(Seq::<T>::empty() + s.filter(p) =~= s.filter(p));
    }
}

proof fn inserted_ties<T>(s: Seq<T>, x: T, z: T, lt: spec_fn(T, T) -> bool)
    requires
        is_order(lt),
    ensures
        ties(inserted_by(s, x, lt), z, lt) == if tied(x, z, lt) {
            seq![x] + ties(s, z, lt)
        } else {
            ties(s, z, lt)
        },
    decreases s.len(),
{
    let p = tied_with(z, lt);
    if s.len() > 0 && lt(s[0], x) {
        let t = s.drop_first();
        inserted_ties(t, x, z, lt);
        assert(s =~= seq![s[0]] + t);
        filter_cons(s[0], inserted_by(t, x, lt), p);
        filter_cons(s[0], t, p);
        if tied(x, z, lt) {
            // `s[0]` has to stand before `x`, so it is not tied with what `x` is tied with.
            assert(!tied(s[0], z, lt));
        }
    } else {
        filter_cons(x, s, p);
    }
}

/// Sorting keeps each item as often as it was there.
pub proof fn sorting_permutes<T>(s: Seq<T>, lt: spec_fn(T, T) -> bool)
    ensures
        sorted_by(s, lt).len() == s.len(),
        sorted_by(s, lt).to_multiset() == s.to_multiset(),
        forall|k: int| 0 <= k < s.len() ==> s.contains(#[trigger] sorted_by(s, lt)[k]),
    decreases s.len(),
{
    broadcast use vstd::seq_lib::group_to_multiset_ensures;
    if s.len() > 0 {
        let t = s.drop_first();
        sorting_permutes(t, lt);
        inserted_len(sorted_by(t, lt), s[0], lt);
        inserted_multiset(sorted_by(t, lt), s[0], lt);
        assert(s =~= seq![s[0]] + t);
        vstd::seq_lib::lemma_multiset_commutative(seq![s[0]], t);
        assert(seq![s[0]] =~= Seq::empty().push(s[0]));
        assert(s.to_multiset() =~= t.to_multiset().insert(s[0]));
    }
    let r = sorted_by(s, lt);
    assert forall|k: int| 0 <= k < s.len() implies s.contains(#[trigger] r[k]) by {
        assert(r.contains(r[k]));
        assert(r.to_multiset().count(r[k]) > 0);
    }
}

/// Sorting puts the items in order, keeps each as often as it was there, and leaves those that
/// need not stand before each other as they came.
pub proof fn sorting_is_stable<T>(s: Seq<T>, lt: spec_fn(T, T) -> bool)
    requires
        is_order(lt),
    ensures
        in_order(sorted_by(s, lt), lt),
        sorted_by(s, lt).len() == s.len(),
        sorted_by(s, lt).to_multiset() == s.to_multiset(),
        forall|z: T| #[trigger] ties(sorted_by(s, lt), z, lt) == ties(s, z, lt),
    decreases s.len(),
{
    sorting_permutes(s, lt);
    if s.len() > 0 {
        let t = s.drop_first();
        sorting_is_stable(t, lt);
        inserted_in_order(sorted_by(t, lt), s[0], lt);
        assert(s =~= seq![s[0]] + t);
        assert forall|z: T| #[trigger] ties(sorted_by(s, lt), z, lt) == ties(s, z, lt) by {
            inserted_ties(sorted_by(t, lt), s[0], z, lt);
            filter_cons(s[0], t, tied_with(z, lt));
            assert(ties(sorted_by(t, lt), z, lt) == ties(t, z, lt));
        }
    }
}

/// Sorting what is in order changes nothing.
pub proof fn sorting_sorted<T>(s: Seq<T>, lt: spec_fn(T, T) -> bool)
    requires
        in_order(s, lt),
    ensures
        sorted_by(s, lt) == s,
    decreases s.len(),
{
    if s.len() > 0 {
        let t = s.drop_first();
        assert forall|i: int, j: int| 0 <= i < j < t.len() implies !lt(#[trigger] t[j], #[trigger] t[i]) by {
            assert(t[j] == s[j + 1] && t[i] == s[i + 1]);
        }
        sorting_sorted(t, lt);
        if t.len() > 0 {
            assert(t[0] == s[1]);
            assert(!lt(s[1], s[0]));
        }
        assert(seq![s[0]] + t =~= s);
    }
}

proof fn inserted_map<A, B>(s: Seq<A>, x: A, f: spec_fn(A) -> B, lta: spec_fn(A, A) -> bool, ltb: spec_fn(B, B) -> bool)
    requires
        forall|a: A, b: A| #[trigger] lta(a, b) == ltb(f(a), f(b)),
    ensures
        inserted_by(s, x, lta).map_values(f) == inserted_by(s.map_values(f), f(x), ltb),
    decreases s.len(),
{
    let m = s.map_values(f);
    if s.len() > 0 && lta(s[0], x) {
        inserted_map(s.drop_first(), x, f, lta, ltb);
        assert(m.drop_first() =~= s.drop_first().map_values(f));
        assert(inserted_by(s, x, lta).map_values(f) =~= seq![f(s[0])] + inserted_by(s.drop_first(), x, lta).map_values(f));
    } else {
        if s.len() > 0 {
            assert(lta(s[0], x) == ltb(m[0], f(x)));
        }
        assert(inserted_by(s, x, lta).map_values(f) =~= seq![f(x)] + m);
    }
}

/// Sorting by what `f` makes of the items, or making it of the sorted items, is the same.
pub proof fn sorting_map<A, B>(s: Seq<A>, f: spec_fn(A) -> B, lta: spec_fn(A, A) -> bool, ltb: spec_fn(B, B) -> bool)
    requires
        forall|a: A, b: A| #[trigger] lta(a, b) == ltb(f(a), f(b)),
    ensures
        sorted_by(s, lta).map_values(f) == sorted_by(s.map_values(f), ltb),
    decreases s.len(),
{
    let m = s.map_values(f);
    if s.len() > 0 {
        sorting_map(s.drop_first(), f, lta, ltb);
        inserted_map(sorted_by(s.drop_first(), lta), s[0], f, lta, ltb);
        assert(m.drop_first() =~= s.drop_first().map_values(f));
    } else {
        assert(sorted_by(s, lta).map_values(f) =~= m);
    }
}

/// The first item of a list that is tied with one of its own items.
proof fn ties_front<T>(s: Seq<T>, z: T, lt: spec_fn(T, T) -> bool)
    requires
        s.len() > 0,
    ensures
        tied(s[0], z, lt) ==> ties(s, z, lt) == seq![s[0]] + ties(s.drop_first(), z, lt),
        !tied(s[0], z, lt) ==> ties(s, z, lt) == ties(s.drop_first(), z, lt),
{
    assert(s =~= seq![s[0]] + s.drop_first());
    filter_cons(s[0], s.drop_first(), tied_with(z, lt));
}

/// An item tied with `z` is somewhere in the list.
proof fn ties_in<T>(s: Seq<T>, z: T, lt: spec_fn(T, T) -> bool)
    ensures
        ties(s, z, lt).len() > 0 <==> exists|i: int| 0 <= i < s.len() && tied(#[trigger] s[i], z, lt),
    decreases s.len(),
{
    if s.len() > 0 {
        let t = s.drop_first();
        ties_front(s, z, lt);
        ties_in(t, z, lt);
        if tied(s[0], z, lt) {
            assert(0 <= 0 < s.len() && tied(s[0], z, lt));
        } else {
            if ties(t, z, lt).len() > 0 {
                let i = choose|i: int| 0 <= i < t.len() && tied(#[trigger] t[i], z, lt);
                assert(tied(s[i + 1], z, lt));
            }
            if exists|i: int| 0 <= i < s.len() && tied(#[trigger] s[i], z, lt) {
                let i = choose|i: int| 0 <= i < s.len() && tied(#[trigger] s[i], z, lt);
                assert(tied(t[i - 1], z, lt));
            }
        }
    } else {
        assert(ties(s, z, lt) =~= Seq::empty()) by {
            reveal(Seq::filter);
        }
    }
}

/// Two lists in order whose ties stand in the same order are the same list.
pub proof fn order_is_unique<T>(s: Seq<T>, t: Seq<T>, lt: spec_fn(T, T) -> bool)
    requires
        is_order(lt),
        in_order(s, lt),
        in_order(t, lt),
        forall|z: T| #[trigger] ties(s, z, lt) == ties(t, z, lt),
    ensures
        s == t,
    decreases s.len(),
{
    if s.len() == 0 {
        if t.len() > 0 {
            assert(ties(s, t[0], lt) == ties(t, t[0], lt));
            ties_front(t, t[0], lt);
            assert(!lt(t[0], t[0]));
            ties_in(s, t[0], lt);
            assert(false);
        }
        assert(s =~= t);
    } else {
        let x = s[0];
        assert(!lt(x, x));
        assert(tied(x, x, lt));
        assert(ties(s, x, lt) == ties(t, x, lt));
        ties_front(s, x, lt);
        ties_in(t, x, lt);
        let i = choose|i: int| 0 <= i < t.len() && tied(#[trigger] t[i], x, lt);
        let y = t[0];
        assert(!lt(y, y));
        assert(ties(s, y, lt) == ties(t, y, lt));
        ties_front(t, y, lt);
        ties_in(s, y, lt);
        let j = choose|j: int| 0 <= j < s.len() && tied(#[trigger] s[j], y, lt);
        // `y` is not after `x`, as it precedes what is tied with `x`, and the other way round.
        assert(!lt(x, y)) by {
            if i > 0 {
                assert(!lt(t[i], t[0]));
            }
            assert(!lt(x, t[i]));
        }
        assert(!lt(y, x)) by {
            if j > 0 {
                assert(!lt(s[j], s[0]));
            }
            assert(!lt(y, s[j]));
        }
        assert(tied(y, x, lt));
        ties_front(t, x, lt);
        assert(x == y) by {
            assert(ties(s, x, lt)[0] == x);
            assert(ties(t, x, lt)[0] == y);
        }
        let s2 = s.drop_first();
        let t2 = t.drop_first();
        assert forall|a: int, b: int| 0 <= a < b < s2.len() implies !lt(#[trigger] s2[b], #[trigger] s2[a]) by {
            assert(s2[b] == s[b + 1] && s2[a] == s[a + 1]);
        }
        assert forall|a: int, b: int| 0 <= a < b < t2.len() implies !lt(#[trigger] t2[b], #[trigger] t2[a]) by {
            assert(t2[b] == t[b + 1] && t2[a] == t[a + 1]);
        }
        assert forall|z: T| #[trigger] ties(s2, z, lt) == ties(t2, z, lt) by {
            assert(ties(s, z, lt) == ties(t, z, lt));
            ties_front(s, z, lt);
            ties_front(t, z, lt);
            if tied(x, z, lt) {
                assert(ties(s2, z, lt) =~= ties(s, z, lt).drop_first());
                assert(ties(t2, z, lt) =~= ties(t, z, lt).drop_first());
            }
        }
        order_is_unique(s2, t2, lt);
        assert(s =~= seq![x] + s2);
        assert(t =~= seq![y] + t2);
    }
}

/// Lists whose ties stand in the same order are sorted alike.
pub proof fn sorting_same_ties<T>(s: Seq<T>, t: Seq<T>, lt: spec_fn(T, T) -> bool)
    requires
        is_order(lt),
        forall|z: T| #[trigger] ties(s, z, lt) == ties(t, z, lt),
    ensures
        sorted_by(s, lt) == sorted_by(t, lt),
{
    sorting_is_stable(s, lt);
    sorting_is_stable(t, lt);
    assert forall|z: T| #[trigger] ties(sorted_by(s, lt), z, lt) == ties(sorted_by(t, lt), z, lt) by {
        assert(ties(s, z, lt) == ties(t, z, lt));
    }
    order_is_unique(sorted_by(s, lt), sorted_by(t, lt), lt);
}

/// No two elements are tied.
pub open spec fn no_ties<T>(s: Seq<T>, lt: spec_fn(T, T) -> bool) -> bool {
    forall|i: int, j: int| 0 <= i < j < s.len() ==> !tied(#[trigger] s[i], #[trigger] s[j], lt)
}

/// Where no two elements are tied, an element is tied with itself only.
proof fn only_tie<T>(s: Seq<T>, z: T, lt: spec_fn(T, T) -> bool, k: int)
    requires
        is_order(lt),
        no_ties(s, lt),
        0 <= k < s.len(),
        tied(s[k], z, lt),
    ensures
        ties(s, z, lt) == seq![s[k]],
    decreases s.len(),
{
    let t = s.drop_first();
    ties_front(s, z, lt);
    assert forall|i: int, j: int| 0 <= i < j < t.len() implies !tied(#[trigger] t[i], #[trigger] t[j], lt) by {
        assert(t[i] == s[i + 1] && t[j] == s[j + 1]);
    }
    if k > 0 {
        assert(!tied(s[0], s[k], lt));
        assert(!tied(s[0], z, lt));
        assert(t[k - 1] == s[k]);
        only_tie(t, z, lt, k - 1);
    } else {
        ties_in(t, z, lt);
        if ties(t, z, lt).len() > 0 {
            let j = choose|j: int| 0 <= j < t.len() && tied(#[trigger] t[j], z, lt);
            assert(t[j] == s[j + 1]);
            assert(!tied(s[0], s[j + 1], lt));
        }
        assert(ties(s, z, lt) =~= seq![s[k]]);
    }
}

/// Lists of the same elements, none of which are tied, are sorted alike whatever their order.
pub proof fn sorting_ignores_order<T>(s: Seq<T>, t: Seq<T>, lt: spec_fn(T, T) -> bool)
    requires
        is_order(lt),
        no_ties(s, lt),
        no_ties(t, lt),
        forall|i: int| 0 <= i < s.len() ==> t.contains(#[trigger] s[i]),
        forall|i: int| 0 <= i < t.len() ==> s.contains(#[trigger] t[i]),
    ensures
        sorted_by(s, lt) == sorted_by(t, lt),
{
    assert forall|z: T| #[trigger] ties(s, z, lt) == ties(t, z, lt) by {
        ties_in(s, z, lt);
        ties_in(t, z, lt);
        if exists|i: int| 0 <= i < s.len() && tied(#[trigger] s[i], z, lt) {
            let i = choose|i: int| 0 <= i < s.len() && tied(#[trigger] s[i], z, lt);
            assert(t.contains(s[i]));
            let j = choose|j: int| 0 <= j < t.len() && t[j] == s[i];
            only_tie(s, z, lt, i);
            only_tie(t, z, lt, j);
        } else {
            if exists|j: int| 0 <= j < t.len() && tied(#[trigger] t[j], z, lt) {
                let j = choose|j: int| 0 <= j < t.len() && tied(#[trigger] t[j], z, lt);
                assert(s.contains(t[j]));
                let i = choose|i: int| 0 <= i < s.len() && s[i] == t[j];
                assert(tied(s[i], z, lt));
            }
            assert(ties(s, z, lt) =~= ties(t, z, lt));
        }
    }
    sorting_same_ties(s, t, lt);
}

// ── Executable sorting ──────────────────────────────────────────────────────

/// A type whose values are put in order by their views.
pub trait Ranked: View + Sized {
    /// `a` has to stand before `b`.
    spec fn before(a: Self::V, b: Self::V) -> bool;

    /// Whether `self` has to stand before `other`.
    fn is_before(&self, other: &Self) -> (r: bool)
        ensures
            r == Self::before(self@, other@),
    ;
}

/// The order of the views of a ranked type.
pub open spec fn rank<T: Ranked>() -> spec_fn(T::V, T::V) -> bool {
    |a: T::V, b: T::V| T::before(a, b)
}

/// The order of the values of a ranked type.
pub open spec fn value_rank<T: Ranked>() -> spec_fn(T, T) -> bool {
    |a: T, b: T| T::before(a@, b@)
}

/// The view of a value.
pub open spec fn viewing<T: View>() -> spec_fn(T) -> T::V {
    |x: T| x@
}

/// The views of the items of a list.
pub open spec fn seen<T: View>(s: Seq<T>) -> Seq<T::V> {
    s.map_values(viewing())
}

/// Puts `x` in front of the first item that need not stand before it.
fn insert_in_order<T: Ranked>(v: &mut Vec<T>, x: T)
    ensures
        final(v)@ == inserted_by(old(v)@, x, value_rank()),
{
    let mut i: usize = 0;
    let ghost s = v@;
    let ghost lt = value_rank::<T>();
    assert(s.skip(0) =~= s);
    assert(s.take(0) + inserted_by(s.skip(0), x, lt) =~= inserted_by(s, x, lt));
    while i < v.len() && v[i].is_before(&x)
        invariant
            0 <= i <= v@.len(),
            v@ == s,
            lt == value_rank::<T>(),
            s.take(i as int) + inserted_by(s.skip(i as int), x, lt) == inserted_by(s, x, lt),
        decreases v@.len() - i,
    {
        assert(s.skip(i as int).drop_first() =~= s.skip(i + 1));
        assert(s.take(i + 1) + inserted_by(s.skip(i + 1), x, lt) =~= s.take(i as int) + inserted_by(
            s.skip(i as int),
            x,
            lt,
        ));
        i = i + 1;
    }
    proof {
        assert(s.take(i as int) + (seq![x] + s.skip(i as int)) =~= s.insert(i as int, x));
    }
    v.insert(i, x);
}

/// Sorts `v`, leaving items that need not stand before each other as they came.
pub fn sort<T: Ranked>(v: Vec<T>) -> (r: Vec<T>)
    ensures
        r@ == sorted_by(v@, value_rank()),
        seen(r@) == sorted_by(seen(v@), rank::<T>()),
{
    let mut rest = v;
    let mut r: Vec<T> = Vec::new();
    let ghost s = v@;
    let ghost lt = value_rank::<T>();
    assert(s.skip(s.len() as int) =~= r@);
    while rest.len() > 0
        invariant
            rest@ == s.take(rest@.len() as int),
            rest@.len() <= s.len(),
            lt == value_rank::<T>(),
            r@ == sorted_by(s.skip(rest@.len() as int), lt),
        decreases rest@.len(),
    {
        let ghost n = rest@.len() as int;
        match rest.pop() {
            Some(x) => {
                assert(s.skip(n - 1).drop_first() =~= s.skip(n));
                assert(s.take(n).drop_last() =~= s.take(n - 1));
                insert_in_order(&mut r, x);
            },
            None => {},
        }
    }
    assert(s.skip(0) =~= s);
    proof {
        sorting_map(s, viewing::<T>(), lt, rank::<T>());
    }
    r
}

} // verus!
