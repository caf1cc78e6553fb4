//! Stable sorting of records by a rank of their own.

use crate::text;
use vstd::prelude::*;

verus! {

/// A type whose values stand in a total order.
pub trait Ranked: Sized {
    /// Whether `a` may stand before `b`.
    spec fn ranked(a: Self, b: Self) -> bool;

    /// Of two values one may stand before the other.
    proof fn ranked_total(a: Self, b: Self)
        ensures
            Self::ranked(a, b) || Self::ranked(b, a),
    ;

    /// The order is transitive.
    proof fn ranked_transitive(a: Self, b: Self, c: Self)
        requires
            Self::ranked(a, b),
            Self::ranked(b, c),
        ensures
            Self::ranked(a, c),
    ;

    /// Whether `self` may stand before `other`.
    fn may_precede(&self, other: &Self) -> (r: bool)
        ensures
            r == Self::ranked(*self, *other),
    ;
}

/// The sequence with `x` put behind all that may stand before it.
pub open spec fn inserted<T: Ranked>(s: Seq<T>, x: T) -> Seq<T>
    decreases s.len(),
{
    if s.len() == 0 || T::ranked(s.last(), x) {
        s.push(x)
    } else {
        inserted(s.drop_last(), x).push(s.last())
    }
}

/// The sequence in order; what ranks the same keeps its order.
pub open spec fn in_order<T: Ranked>(s: Seq<T>) -> Seq<T>
    decreases s.len(),
{
    if s.len() == 0 {
        s
    } else {
        inserted(in_order(s.drop_last()), s.last())
    }
}

/// Each value may stand before those behind it.
pub open spec fn is_ordered<T: Ranked>(s: Seq<T>) -> bool {
    forall|i: int, j: int| 0 <= i < j < s.len() ==> T::ranked(#[trigger] s[i], #[trigger] s[j])
}

/// Putting a value into an ordered sequence keeps it ordered and adds the value.
proof fn lemma_inserted<T: Ranked>(s: Seq<T>, x: T)
    requires
        is_ordered(s),
    ensures
        is_ordered(inserted(s, x)),
        inserted(s, x).len() == s.len() + 1,
        inserted(s, x).to_multiset() == s.to_multiset().insert(x),
        forall|i: int|
            0 <= i < inserted(s, x).len() ==> (#[trigger] inserted(s, x)[i] == x || s.contains(
                inserted(s, x)[i],
            )),
    decreases s.len(),
{
    broadcast use vstd::seq_lib::group_to_multiset_ensures;

    let r = inserted(s, x);
    if s.len() == 0 || T::ranked(s.last(), x) {
        assert forall|i: int, j: int| 0 <= i < j < r.len() implies T::ranked(
            #[trigger] r[i],
            #[trigger] r[j],
        ) by {
            if j == s.len() && i < s.len() - 1 {
                assert(T::ranked(s[i], s[s.len() - 1]));
                T::ranked_transitive(s[i], s.last(), x);
            }
        }
        assert forall|i: int| 0 <= i < r.len() implies (#[trigger] r[i] == x || s.contains(
            r[i],
        )) by {
            if i < s.len() {
                assert(s[i] == r[i]);
            }
        }
    } else {
        let front = s.drop_last();
        let inner = inserted(front, x);
        lemma_inserted(front, x);
        T::ranked_total(s.last(), x);
        assert forall|i: int, j: int| 0 <= i < j < r.len() implies T::ranked(
            #[trigger] r[i],
            #[trigger] r[j],
        ) by {
            if j == inner.len() {
                assert(r[i] == inner[i]);
                if inner[i] != x {
                    let k = choose|k: int| 0 <= k < front.len() && front[k] == inner[i];
                    assert(T::ranked(s[k], s[s.len() - 1]));
                }
            }
        }
        assert(s =~= front.push(s.last()));
        assert(r.to_multiset() =~= s.to_multiset().insert(x)) by {
            assert(r.to_multiset() =~= inner.to_multiset().insert(s.last()));
            assert(s.to_multiset() =~= front.to_multiset().insert(s.last()));
        }
        assert forall|i: int| 0 <= i < r.len() implies (#[trigger] r[i] == x || s.contains(
            r[i],
        )) by {
            if i < inner.len() {
                assert(r[i] == inner[i]);
                if inner[i] != x {
                    let k = choose|k: int| 0 <= k < front.len() && front[k] == inner[i];
                    assert(s[k] == r[i]);
                }
            } else {
                assert(s[s.len() - 1] == r[i]);
            }
        }
    }
}

/// Sorting gives an ordered sequence of the same values.
pub proof fn in_order_sorts<T: Ranked>(s: Seq<T>)
    ensures
        is_ordered(in_order(s)),
        in_order(s).len() == s.len(),
        in_order(s).to_multiset() == s.to_multiset(),
    decreases s.len(),
{
    broadcast use vstd::seq_lib::group_to_multiset_ensures;

    if s.len() > 0 {
        in_order_sorts(s.drop_last());
        lemma_inserted(in_order(s.drop_last()), s.last());
        assert(s =~= s.drop_last().push(s.last()));
        assert(in_order(s).to_multiset() =~= s.to_multiset());
    }
}

/// Puts `x` behind all that may stand before it.
fn insert_ranked<T: Ranked>(v: &mut Vec<T>, x: T)
    ensures
        final(v)@ == inserted(old(v)@, x),
{
    let ghost before = v@;
    let mut i: usize = v.len();
    assert(before.take(i as int) =~= before);
    assert(before.skip(i as int) =~= Seq::<T>::empty());
    assert(inserted(before, x) =~= inserted(before.take(i as int), x) + before.skip(i as int));
    while i > 0 && !v[i - 1].may_precede(&x)
        invariant
            v@ == before,
            i <= before.len(),
            inserted(before, x) == inserted(before.take(i as int), x) + before.skip(i as int),
        decreases i,
    {
        proof {
            let front = before.take(i as int);
            assert(front.drop_last() =~= before.take(i - 1));
            assert(inserted(front, x) == inserted(before.take(i - 1), x).push(before[i - 1]));
            assert(before.skip(i - 1) =~= seq![before[i - 1]] + before.skip(i as int));
            assert(inserted(before.take(i - 1), x) + before.skip(i - 1) =~= inserted(front, x)
                + before.skip(i as int));
        }
        i = i - 1;
    }
    proof {
        let front = before.take(i as int);
        assert(inserted(front, x) =~= front.push(x)) by {
            if i > 0 {
                assert(front.last() == before[i - 1]);
            }
        }
        assert(before.insert(i as int, x) =~= front.push(x) + before.skip(i as int));
    }
    v.insert(i, x);
}

/// Sorts the values; what ranks the same keeps its order.
pub fn sort<T: Ranked>(v: Vec<T>) -> (r: Vec<T>)
    ensures
        r@ == in_order(v@),
{
    let mut rest: Vec<T> = v;
    let ghost all = rest@;
    let mut r: Vec<T> = Vec::new();
    let ghost mut n: int = 0;
    assert(all.skip(0) =~= all);
    assert(all.take(0) =~= Seq::<T>::empty());
    while rest.len() > 0
        invariant
            0 <= n <= all.len(),
            rest@ == all.skip(n),
            r@ == in_order(all.take(n)),
        decreases rest@.len(),
    {
        let x = rest.remove(0);
        insert_ranked(&mut r, x);
        proof {
            assert(all.take(n + 1).drop_last() =~= all.take(n));
            assert(all.take(n + 1).last() == x);
            assert(rest@ =~= all.skip(n + 1));
            n = n + 1;
        }
    }
    assert(all.take(n) =~= all);
    r
}

impl Ranked for String {
    open spec fn ranked(a: String, b: String) -> bool {
        text::at_most(a@, b@)
    }

    proof fn ranked_total(a: String, b: String) {
        text::at_most_total(a@, b@);
    }

    proof fn ranked_transitive(a: String, b: String, c: String) {
        text::at_most_transitive(a@, b@, c@);
    }

    fn may_precede(&self, other: &String) -> (r: bool) {
        text::is_at_most(self.as_str(), other.as_str())
    }
}

/// Sequences with the same values in any order have the same images in any order.
pub proof fn lemma_views_same_multiset<T, M>(a: Seq<T>, b: Seq<T>, f: spec_fn(T) -> M)
    requires
        a.to_multiset() == b.to_multiset(),
    ensures
        a.map_values(f).to_multiset() == b.map_values(f).to_multiset(),
    decreases a.len(),
{
    broadcast use vstd::seq_lib::group_to_multiset_ensures;

    assert(a.len() == b.len()) by {
        assert(a.to_multiset().len() == a.len());
        assert(b.to_multiset().len() == b.len());
    }
    if a.len() > 0 {
        let x = a.last();
        let front = a.drop_last();
        assert(a =~= front.push(x));
        assert(b.to_multiset().count(x) > 0);
        assert(b.contains(x));
        let j = choose|j: int| 0 <= j < b.len() && b[j] == x;
        let rest = b.remove(j);
        assert(rest.to_multiset() =~= b.to_multiset().remove(x));
        assert(front.to_multiset() =~= a.to_multiset().remove(x));
        lemma_views_same_multiset(front, rest, f);
        assert(a.map_values(f) =~= front.map_values(f).push(f(x)));
        assert(rest.map_values(f) =~= b.map_values(f).remove(j));
        assert(b.map_values(f)[j] == f(x));
        assert(b.map_values(f).to_multiset() =~= rest.map_values(f).to_multiset().insert(f(x)));
    } else {
        assert(a.map_values(f) =~= b.map_values(f));
    }
}

/// Sorting records that are listed leaves them listed.
pub proof fn lemma_views_listed<T: Ranked, K, M>(
    s: Seq<T>,
    f: spec_fn(T) -> M,
    m: Map<K, M>,
    keep: spec_fn(M) -> bool,
)
    requires
        crate::store::model::lists(s.map_values(f), m, keep),
    ensures
        crate::store::model::lists(in_order(s).map_values(f), m, keep),
    decreases s.len(),
{
    let ks = choose|ks: Seq<K>| crate::store::model::lists_keys(s.map_values(f), m, keep, ks);
    assert(crate::store::model::lists_keys(s.map_values(f), m, keep, ks));
    let order = sorted_places(s);
    lemma_sorted_places(s);
    let moved = order.map_values(|i: int| ks[i]);
    let out = in_order(s).map_values(f);
    assert(moved.no_duplicates()) by {
        assert forall|a: int, b: int| 0 <= a < b < moved.len() implies moved[a] != moved[b] by {
            assert(order[a] != order[b]);
        }
    }
    assert forall|i: int| 0 <= i < moved.len() implies m.contains_key(#[trigger] moved[i])
        && m[moved[i]] == out[i] && keep(out[i]) by {
        assert(moved[i] == ks[order[i]]);
        assert(out[i] == f(s[order[i]]));
        assert(s.map_values(f)[order[i]] == f(s[order[i]]));
    }
    assert forall|k: K| m.contains_key(k) && #[trigger] keep(m[k]) implies moved.contains(k) by {
        assert(ks.contains(k));
        let i = choose|i: int| 0 <= i < ks.len() && ks[i] == k;
        assert(order.contains(i));
        let j = choose|j: int| 0 <= j < order.len() && order[j] == i;
        assert(moved[j] == k);
    }
    assert(crate::store::model::lists_keys(out, m, keep, moved));
}

/// Where `inserted` puts the value.
spec fn insertion_place<T: Ranked>(s: Seq<T>, x: T) -> int
    decreases s.len(),
{
    if s.len() == 0 || T::ranked(s.last(), x) {
        s.len() as int
    } else {
        insertion_place(s.drop_last(), x)
    }
}

/// The places in `s` from which the values of `in_order(s)` come.
spec fn sorted_places<T: Ranked>(s: Seq<T>) -> Seq<int>
    decreases s.len(),
{
    if s.len() == 0 {
        Seq::empty()
    } else {
        let front = in_order(s.drop_last());
        sorted_places(s.drop_last()).insert(insertion_place(front, s.last()), s.len() - 1)
    }
}

/// `inserted` is an insertion at its place.
proof fn lemma_insertion_place<T: Ranked>(s: Seq<T>, x: T)
    ensures
        0 <= insertion_place(s, x) <= s.len(),
        inserted(s, x) == s.insert(insertion_place(s, x), x),
    decreases s.len(),
{
    if s.len() == 0 || T::ranked(s.last(), x) {
        assert(s.push(x) =~= s.insert(s.len() as int, x));
    } else {
        lemma_insertion_place(s.drop_last(), x);
        let p = insertion_place(s.drop_last(), x);
        assert(s.drop_last().insert(p, x).push(s.last()) =~= s.insert(p, x));
    }
}

/// The places are those of a permutation that sorts.
proof fn lemma_sorted_places<T: Ranked>(s: Seq<T>)
    ensures
        sorted_places(s).len() == s.len(),
        in_order(s).len() == s.len(),
        sorted_places(s).no_duplicates(),
        forall|i: int| 0 <= i < s.len() ==> 0 <= #[trigger] sorted_places(s)[i] < s.len(),
        forall|i: int| 0 <= i < s.len() ==> #[trigger] in_order(s)[i] == s[sorted_places(s)[i]],
        forall|i: int| 0 <= i < s.len() ==> #[trigger] sorted_places(s).contains(i),
    decreases s.len(),
{
    if s.len() > 0 {
        let front = s.drop_last();
        let sorted = in_order(front);
        let places = sorted_places(front);
        let n = s.len() - 1;
        lemma_sorted_places(front);
        lemma_insertion_place(sorted, s.last());
        let p = insertion_place(sorted, s.last());
        let after = sorted_places(s);
        assert(after == places.insert(p, n));
        assert forall|i: int| 0 <= i < s.len() implies #[trigger] after[i] == (if i < p {
            places[i]
        } else if i == p {
            n
        } else {
            places[i - 1]
        }) by {}
        assert(after.no_duplicates()) by {
            assert forall|a: int, b: int| 0 <= a < b < after.len() implies after[a] != after[b] by {
                let x = if a < p {
                    a
                } else {
                    a - 1
                };
                let y = if b < p {
                    b
                } else {
                    b - 1
                };
                if a != p && b != p {
                    assert(places[x] != places[y]);
                } else if a == p {
                    assert(places[y] < n);
                } else {
                    assert(places[x] < n);
                }
            }
        }
        assert forall|i: int| 0 <= i < s.len() implies 0 <= #[trigger] after[i] < s.len() by {
            if i < p {
                assert(places[i] < front.len());
            } else if i > p {
                assert(places[i - 1] < front.len());
            }
        }
        assert forall|i: int| 0 <= i < s.len() implies #[trigger] in_order(s)[i] == s[after[i]] by {
            if i < p {
                assert(sorted[i] == front[places[i]]);
            } else if i > p {
                assert(sorted[i - 1] == front[places[i - 1]]);
            }
        }
        assert forall|i: int| 0 <= i < s.len() implies #[trigger] after.contains(i) by {
            if i == n {
                assert(after[p] == n);
            } else {
                assert(places.contains(i));
                let j = choose|j: int| 0 <= j < places.len() && places[j] == i;
                if j < p {
                    assert(after[j] == i);
                } else {
                    assert(after[j + 1] == i);
                }
            }
        }
    }
}

/// The place in `s` from which the value at place `i` of `in_order(s)` comes.
pub closed spec fn place_of<T: Ranked>(s: Seq<T>, i: int) -> int {
    sorted_places(s)[i]
}

/// Every value of the sorted sequence comes from a place of its own.
pub proof fn lemma_from_somewhere<T: Ranked>(s: Seq<T>)
    ensures
        in_order(s).len() == s.len(),
        forall|i: int|
            0 <= i < s.len() ==> 0 <= #[trigger] place_of(s, i) < s.len() && in_order(s)[i]
                == s[place_of(s, i)],
        forall|i: int, j: int|
            0 <= i < j < s.len() ==> #[trigger] place_of(s, i) != #[trigger] place_of(s, j),
{
    lemma_sorted_places(s);
}

/// The place of `in_order(s)` to which the value at place `i` of `s` goes.
pub closed spec fn found_at<T: Ranked>(s: Seq<T>, i: int) -> int {
    choose|j: int| 0 <= j < s.len() && sorted_places(s)[j] == i
}

/// Every value is somewhere in the sorted sequence.
pub proof fn lemma_from_everywhere<T: Ranked>(s: Seq<T>)
    ensures
        forall|i: int|
            0 <= i < s.len() ==> 0 <= #[trigger] found_at(s, i) < s.len() && in_order(
                s,
            )[found_at(s, i)] == s[i],
{
    lemma_sorted_places(s);
    assert forall|i: int| 0 <= i < s.len() implies 0 <= #[trigger] found_at(s, i) < s.len()
        && in_order(s)[found_at(s, i)] == s[i] by {
        assert(sorted_places(s).contains(i));
        let j = choose|j: int| 0 <= j < sorted_places(s).len() && sorted_places(s)[j] == i;
        assert(0 <= j < s.len() && sorted_places(s)[j] == i);
    }
}

/// Sorting strings that occur once leaves them so, and loses none.
pub proof fn lemma_strings_sorted(s: Seq<String>)
    ensures
        crate::text::texts(s).no_duplicates() ==> crate::text::texts(
            in_order(s),
        ).no_duplicates(),
        forall|t: Seq<char>| #[trigger]
            crate::text::texts(in_order(s)).contains(t) == crate::text::texts(
                s,
            ).contains(t),
{
    let before = crate::text::texts(s);
    let after = crate::text::texts(in_order(s));
    let order = sorted_places(s);
    lemma_sorted_places(s);
    if before.no_duplicates() {
        assert forall|a: int, b: int| 0 <= a < b < after.len() implies after[a] != after[b] by {
            assert(order[a] != order[b]);
            assert(after[a] == before[order[a]]);
            assert(after[b] == before[order[b]]);
        }
    }
    assert forall|t: Seq<char>| #[trigger] after.contains(t) == before.contains(t) by {
        if after.contains(t) {
            let i = choose|i: int| 0 <= i < after.len() && after[i] == t;
            assert(before[order[i]] == t);
        }
        if before.contains(t) {
            let i = choose|i: int| 0 <= i < before.len() && before[i] == t;
            assert(order.contains(i));
            let j = choose|j: int| 0 <= j < order.len() && order[j] == i;
            assert(after[j] == t);
        }
    }
}

/// The sequence with `x` put behind all that may stand before it.
pub open spec fn placed<M>(s: Seq<M>, x: M, le: spec_fn(M, M) -> bool) -> Seq<M>
    decreases s.len(),
{
    if s.len() == 0 || le(s.last(), x) {
        s.push(x)
    } else {
        placed(s.drop_last(), x, le).push(s.last())
    }
}

/// The sequence in the order of `le`; what ranks the same keeps its order.
pub open spec fn arranged<M>(s: Seq<M>, le: spec_fn(M, M) -> bool) -> Seq<M>
    decreases s.len(),
{
    if s.len() == 0 {
        s
    } else {
        placed(arranged(s.drop_last(), le), s.last(), le)
    }
}

/// Each value may stand before those behind it.
pub open spec fn stands<M>(s: Seq<M>, le: spec_fn(M, M) -> bool) -> bool {
    forall|i: int, j: int| 0 <= i < j < s.len() ==> le(#[trigger] s[i], #[trigger] s[j])
}

/// Of two values one may always stand before the other, and the relation is
/// transitive.
pub open spec fn ranks<M>(le: spec_fn(M, M) -> bool) -> bool {
    &&& forall|a: M, b: M| #[trigger] le(a, b) || le(b, a)
    &&& forall|a: M, b: M, c: M| #[trigger] le(a, b) && #[trigger] le(b, c) ==> le(a, c)
}

/// Putting a value into its place keeps the order and adds the value.
proof fn lemma_placed<M>(s: Seq<M>, x: M, le: spec_fn(M, M) -> bool)
    requires
        ranks(le),
        stands(s, le),
    ensures
        stands(placed(s, x, le), le),
        placed(s, x, le).len() == s.len() + 1,
        placed(s, x, le).to_multiset() == s.to_multiset().insert(x),
    decreases s.len(),
{
    broadcast use vstd::seq_lib::group_to_multiset_ensures;

    let r = placed(s, x, le);
    if s.len() == 0 || le(s.last(), x) {
        assert forall|i: int, j: int| 0 <= i < j < r.len() implies le(
            #[trigger] r[i],
            #[trigger] r[j],
        ) by {
            if j == s.len() && i < s.len() - 1 {
                assert(le(s[i], s[s.len() - 1]));
            }
        }
    } else {
        let front = s.drop_last();
        let inner = placed(front, x, le);
        lemma_placed(front, x, le);
        assert(s =~= front.push(s.last()));
        assert(r.to_multiset() =~= s.to_multiset().insert(x)) by {
            assert(r.to_multiset() =~= inner.to_multiset().insert(s.last()));
            assert(s.to_multiset() =~= front.to_multiset().insert(s.last()));
        }
        assert forall|i: int, j: int| 0 <= i < j < r.len() implies le(
            #[trigger] r[i],
            #[trigger] r[j],
        ) by {
            if j == inner.len() {
                assert(r[i] == inner[i]);
                assert(inner.to_multiset().count(inner[i]) > 0) by {
                    assert(inner.contains(inner[i]));
                }
                if inner[i] != x {
                    assert(front.to_multiset().count(inner[i]) > 0);
                    assert(front.contains(inner[i]));
                    let k = choose|k: int| 0 <= k < front.len() && front[k] == inner[i];
                    assert(le(s[k], s[s.len() - 1]));
                }
            } else {
                assert(r[i] == inner[i] && r[j] == inner[j]);
            }
        }
    }
}

/// Arranging gives the same values, each before those that it may stand before.
pub proof fn arranged_sorts<M>(s: Seq<M>, le: spec_fn(M, M) -> bool)
    requires
        ranks(le),
    ensures
        stands(arranged(s, le), le),
        arranged(s, le).len() == s.len(),
        arranged(s, le).to_multiset() == s.to_multiset(),
    decreases s.len(),
{
    broadcast use vstd::seq_lib::group_to_multiset_ensures;

    if s.len() > 0 {
        arranged_sorts(s.drop_last(), le);
        lemma_placed(arranged(s.drop_last(), le), s.last(), le);
        assert(s =~= s.drop_last().push(s.last()));
        assert(arranged(s, le).to_multiset() =~= s.to_multiset());
    }
}

/// Arranging leaves a sequence alone that stands in order.
pub proof fn arranged_keeps_order<M>(s: Seq<M>, le: spec_fn(M, M) -> bool)
    requires
        stands(s, le),
    ensures
        arranged(s, le) == s,
    decreases s.len(),
{
    if s.len() > 0 {
        let front = s.drop_last();
        assert(stands(front, le)) by {
            assert forall|i: int, j: int| 0 <= i < j < front.len() implies le(
                #[trigger] front[i],
                #[trigger] front[j],
            ) by {
                assert(le(s[i], s[j]));
            }
        }
        arranged_keeps_order(front, le);
        if front.len() > 0 {
            assert(le(s[s.len() - 2], s[s.len() - 1]));
        }
        assert(front.push(s.last()) =~= s);
    }
}

/// Two sequences of the same values in order are the same when only equal values
/// rank the same.
proof fn lemma_order_unique<M>(a: Seq<M>, b: Seq<M>, le: spec_fn(M, M) -> bool)
    requires
        stands(a, le),
        stands(b, le),
        a.to_multiset() == b.to_multiset(),
        forall|i: int, j: int|
            0 <= i < a.len() && 0 <= j < a.len() && le(#[trigger] a[i], #[trigger] a[j]) && le(
                a[j],
                a[i],
            ) ==> a[i] == a[j],
    ensures
        a == b,
    decreases a.len(),
{
    broadcast use vstd::seq_lib::group_to_multiset_ensures;

    assert(a.len() == b.len()) by {
        assert(a.to_multiset().len() == a.len());
        assert(b.to_multiset().len() == b.len());
    }
    if a.len() == 0 {
        assert(a =~= b);
    } else {
        let n = a.len() - 1;
        let x = a[n];
        let y = b[n];
        assert(a.contains(x) && b.contains(y));
        assert(b.to_multiset().count(x) > 0 && a.to_multiset().count(y) > 0);
        assert(b.contains(x) && a.contains(y));
        let i = choose|i: int| 0 <= i < a.len() && a[i] == y;
        let j = choose|j: int| 0 <= j < b.len() && b[j] == x;
        if i < n && j < n {
            assert(le(a[i], a[n]));
            assert(le(b[j], b[n]));
        }
        assert(x == y);
        let front_a = a.drop_last();
        let front_b = b.drop_last();
        assert(a =~= front_a.push(x));
        assert(b =~= front_b.push(x));
        assert(front_a.to_multiset() =~= a.to_multiset().remove(x));
        assert(front_b.to_multiset() =~= b.to_multiset().remove(x));
        assert(stands(front_a, le)) by {
            assert forall|k: int, l: int| 0 <= k < l < front_a.len() implies le(
                #[trigger] front_a[k],
                #[trigger] front_a[l],
            ) by {
                assert(le(a[k], a[l]));
            }
        }
        assert(stands(front_b, le)) by {
            assert forall|k: int, l: int| 0 <= k < l < front_b.len() implies le(
                #[trigger] front_b[k],
                #[trigger] front_b[l],
            ) by {
                assert(le(b[k], b[l]));
            }
        }
        assert forall|k: int, l: int|
            0 <= k < front_a.len() && 0 <= l < front_a.len() && le(
                #[trigger] front_a[k],
                #[trigger] front_a[l],
            ) && le(front_a[l], front_a[k]) implies front_a[k] == front_a[l] by {
            assert(le(a[k], a[l]) && le(a[l], a[k]));
        }
        lemma_order_unique(front_a, front_b, le);
    }
}

/// Arranging forgets the order in which the values came, when only equal values
/// rank the same.
pub proof fn arranged_forgets_order<M>(a: Seq<M>, b: Seq<M>, le: spec_fn(M, M) -> bool)
    requires
        ranks(le),
        a.to_multiset() == b.to_multiset(),
        forall|x: M, y: M|
            a.contains(x) && a.contains(y) && #[trigger] le(x, y) && le(y, x) ==> x == y,
    ensures
        arranged(a, le) == arranged(b, le),
{
    broadcast use vstd::seq_lib::group_to_multiset_ensures;

    arranged_sorts(a, le);
    arranged_sorts(b, le);
    let sa = arranged(a, le);
    assert forall|i: int, j: int|
        0 <= i < sa.len() && 0 <= j < sa.len() && le(#[trigger] sa[i], #[trigger] sa[j]) && le(
            sa[j],
            sa[i],
        ) implies sa[i] == sa[j] by {
        assert(sa.contains(sa[i]) && sa.contains(sa[j]));
        assert(a.to_multiset().count(sa[i]) > 0 && a.to_multiset().count(sa[j]) > 0);
        assert(a.contains(sa[i]) && a.contains(sa[j]));
    }
    lemma_order_unique(sa, arranged(b, le), le);
}

/// Putting a record into its place puts its image into its place.
proof fn lemma_placed_views<T: Ranked, M>(
    s: Seq<T>,
    x: T,
    f: spec_fn(T) -> M,
    le: spec_fn(M, M) -> bool,
)
    requires
        forall|i: int| 0 <= i < s.len() ==> T::ranked(#[trigger] s[i], x) == le(f(s[i]), f(x)),
    ensures
        inserted(s, x).map_values(f) == placed(s.map_values(f), f(x), le),
    decreases s.len(),
{
    let views = s.map_values(f);
    if s.len() > 0 {
        assert(s[s.len() - 1] == s.last());
        assert(views.last() == f(s.last()));
    }
    if s.len() == 0 || T::ranked(s.last(), x) {
        assert(s.push(x).map_values(f) =~= views.push(f(x)));
    } else {
        let front = s.drop_last();
        assert forall|i: int| 0 <= i < front.len() implies T::ranked(#[trigger] front[i], x) == le(
            f(front[i]),
            f(x),
        ) by {
            assert(front[i] == s[i]);
        }
        lemma_placed_views(front, x, f, le);
        assert(front.map_values(f) =~= views.drop_last());
        assert(inserted(front, x).push(s.last()).map_values(f) =~= inserted(front, x).map_values(
            f,
        ).push(f(s.last())));
    }
}

/// Sorting records arranges their images.
pub proof fn lemma_sorted_views<T: Ranked, M>(
    s: Seq<T>,
    f: spec_fn(T) -> M,
    le: spec_fn(M, M) -> bool,
)
    requires
        forall|i: int, j: int|
            0 <= i < s.len() && 0 <= j < s.len() ==> T::ranked(#[trigger] s[i], #[trigger] s[j])
                == le(f(s[i]), f(s[j])),
    ensures
        in_order(s).map_values(f) == arranged(s.map_values(f), le),
    decreases s.len(),
{
    if s.len() > 0 {
        let front = s.drop_last();
        assert forall|i: int, j: int|
            0 <= i < front.len() && 0 <= j < front.len() implies T::ranked(
            #[trigger] front[i],
            #[trigger] front[j],
        ) == le(f(front[i]), f(front[j])) by {
            assert(front[i] == s[i] && front[j] == s[j]);
        }
        lemma_sorted_views(front, f, le);
        lemma_sorted_places(front);
        let sorted = in_order(front);
        assert forall|i: int| 0 <= i < sorted.len() implies T::ranked(
            #[trigger] sorted[i],
            s.last(),
        ) == le(f(sorted[i]), f(s.last())) by {
            let k = sorted_places(front)[i];
            assert(sorted[i] == s[k]);
            assert(s.last() == s[s.len() - 1]);
        }
        lemma_placed_views(sorted, s.last(), f, le);
        assert(front.map_values(f) =~= s.map_values(f).drop_last());
        assert(s.map_values(f).last() == f(s.last()));
    } else {
        assert(in_order(s).map_values(f) =~= arranged(s.map_values(f), le));
    }
}

} // verus!
