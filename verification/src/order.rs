//! Stable sorting.
use vstd::prelude::*;

use crate::text::{
    less, same, text_before, text_before_irreflexive, text_before_total, text_before_transitive,
    texts, views,
};

verus! {

/// Whether `before` is a strict order in which ties form groups: what ties with one member of a
/// group compares as that member does.
pub open spec fn strict_weak_order<T>(before: spec_fn(T, T) -> bool) -> bool {
    &&& forall|a: T| !#[trigger] before(a, a)
    &&& forall|a: T, b: T, c: T|
        #![trigger before(a, b), before(b, c)]
        before(a, b) && before(b, c) ==> before(a, c)
    &&& forall|a: T, b: T, c: T|
        #![trigger before(a, c), before(a, b)]
        #![trigger before(a, c), before(b, c)]
        before(a, c) ==> before(a, b) || before(b, c)
}

/// Whether nothing in `s` stands behind something that it comes before.
pub open spec fn sorted<T>(s: Seq<T>, before: spec_fn(T, T) -> bool) -> bool {
    forall|i: int, j: int|
        #![trigger s[i], s[j]]
        0 <= i < j < s.len() ==> !before(s[j], s[i])
}

/// `x` put into `s` behind the leading elements that come before it.
pub open spec fn insert_stable<T>(s: Seq<T>, x: T, before: spec_fn(T, T) -> bool) -> Seq<T>
    decreases s.len(),
{
    if s.len() > 0 && before(s[0], x) {
        seq![s[0]] + insert_stable(s.drop_first(), x, before)
    } else {
        seq![x] + s
    }
}

/// `s` sorted by `before`, elements that tie in the order that they have in `s`.
pub open spec fn stable_sort<T>(s: Seq<T>, before: spec_fn(T, T) -> bool) -> Seq<T>
    decreases s.len(),
{
    if s.len() == 0 {
        s
    } else {
        insert_stable(stable_sort(s.drop_first(), before), s[0], before)
    }
}

proof fn insert_stable_is_insert<T>(s: Seq<T>, x: T, before: spec_fn(T, T) -> bool, k: int)
    requires
        0 <= k <= s.len(),
        forall|i: int| 0 <= i < k ==> before(#[trigger] s[i], x),
        k == s.len() || !before(s[k], x),
    ensures
        insert_stable(s, x, before) == s.insert(k, x),
    decreases s.len(),
{
    if k > 0 {
        assert(before(s[0], x));
        let t = s.drop_first();
        assert forall|i: int| 0 <= i < k - 1 implies before(#[trigger] t[i], x) by {
            assert(t[i] == s[i + 1]);
        }
        insert_stable_is_insert(t, x, before, k - 1);
        assert(seq![s[0]] + t.insert(k - 1, x) =~= s.insert(k, x));
    } else {
        assert(seq![x] + s =~= s.insert(0, x));
    }
}

/// The number of leading elements of `s` that come before `x`.
spec fn run_before<T>(s: Seq<T>, x: T, before: spec_fn(T, T) -> bool) -> int
    decreases s.len(),
{
    if s.len() > 0 && before(s[0], x) {
        1 + run_before(s.drop_first(), x, before)
    } else {
        0
    }
}

proof fn run_before_bounds<T>(s: Seq<T>, x: T, before: spec_fn(T, T) -> bool)
    ensures
        ({
            let k = run_before(s, x, before);
            &&& 0 <= k <= s.len()
            &&& forall|i: int| 0 <= i < k ==> before(#[trigger] s[i], x)
            &&& k == s.len() || !before(s[k], x)
        }),
    decreases s.len(),
{
    if s.len() > 0 && before(s[0], x) {
        let t = s.drop_first();
        run_before_bounds(t, x, before);
        let k = run_before(s, x, before);
        assert forall|i: int| 0 <= i < k implies before(#[trigger] s[i], x) by {
            if i > 0 {
                assert(s[i] == t[i - 1]);
            }
        }
    }
}

proof fn insert_stable_sorted<T>(s: Seq<T>, x: T, before: spec_fn(T, T) -> bool)
    requires
        sorted(s, before),
        strict_weak_order(before),
    ensures
        sorted(insert_stable(s, x, before), before),
{
    let k = run_before(s, x, before);
    run_before_bounds(s, x, before);
    insert_stable_is_insert(s, x, before, k);
    let r = s.insert(k, x);
    assert forall|i: int, j: int| #![trigger r[i], r[j]] 0 <= i < j < r.len() implies !before(
        r[j],
        r[i],
    ) by {
        if i < k && j == k {
            assert(before(s[i], x));
        } else if i == k {
            // everything from position `k` on fails to come before `x`
            assert(r[j] == s[j - 1]);
            if before(s[j - 1], x) && j - 1 > k {
                assert(!before(s[j - 1], s[k]));
                assert(before(s[j - 1], s[k]) || before(s[k], x));
            }
        } else {
            let a = if i < k { i } else { i - 1 };
            let b = if j < k { j } else { j - 1 };
            assert(r[i] == s[a] && r[j] == s[b]);
        }
    }
}

/// The sorted sequence is in order.
pub proof fn stable_sort_sorts<T>(s: Seq<T>, before: spec_fn(T, T) -> bool)
    requires
        strict_weak_order(before),
    ensures
        sorted(stable_sort(s, before), before),
    decreases s.len(),
{
    if s.len() > 0 {
        stable_sort_sorts(s.drop_first(), before);
        insert_stable_sorted(stable_sort(s.drop_first(), before), s[0], before);
    }
}

/// Sorting neither adds nor loses an element.
pub proof fn stable_sort_permutes<T>(s: Seq<T>, before: spec_fn(T, T) -> bool)
    ensures
        stable_sort(s, before).to_multiset() == s.to_multiset(),
        stable_sort(s, before).len() == s.len(),
    decreases s.len(),
{
    broadcast use vstd::seq_lib::group_to_multiset_ensures;

    if s.len() > 0 {
        let t = stable_sort(s.drop_first(), before);
        stable_sort_permutes(s.drop_first(), before);
        run_before_bounds(t, s[0], before);
        let k = run_before(t, s[0], before);
        insert_stable_is_insert(t, s[0], before, k);
        assert(t.insert(k, s[0]) =~= t.take(k) + seq![s[0]] + t.skip(k));
        vstd::seq_lib::lemma_multiset_commutative(t.take(k), seq![s[0]]);
        vstd::seq_lib::lemma_multiset_commutative(t.take(k) + seq![s[0]], t.skip(k));
        vstd::seq_lib::lemma_multiset_commutative(t.take(k), t.skip(k));
        assert(t =~= t.take(k) + t.skip(k));
        assert(s =~= seq![s[0]] + s.drop_first());
        vstd::seq_lib::lemma_multiset_commutative(seq![s[0]], s.drop_first());
    }
}

/// Whether neither of `a` and `b` comes before the other.
pub open spec fn ties<T>(before: spec_fn(T, T) -> bool, a: T) -> spec_fn(T) -> bool {
    |b: T| !before(a, b) && !before(b, a)
}

/// Elements that tie keep the order that they had.
pub proof fn stable_sort_keeps_ties<T>(s: Seq<T>, before: spec_fn(T, T) -> bool, a: T)
    requires
        strict_weak_order(before),
    ensures
        stable_sort(s, before).filter(ties(before, a)) == s.filter(ties(before, a)),
    decreases s.len(),
{
    let p = ties(before, a);
    if s.len() > 0 {
        let x = s[0];
        let t = stable_sort(s.drop_first(), before);
        stable_sort_keeps_ties(s.drop_first(), before, a);
        run_before_bounds(t, x, before);
        let k = run_before(t, x, before);
        insert_stable_is_insert(t, x, before, k);
        let one = seq![x];
        assert(t.insert(k, x) =~= t.take(k) + one + t.skip(k));
        assert(t =~= t.take(k) + t.skip(k));
        assert(s =~= one + s.drop_first());
        Seq::filter_distributes_over_add(t.take(k) + one, t.skip(k), p);
        Seq::filter_distributes_over_add(t.take(k), one, p);
        Seq::filter_distributes_over_add(t.take(k), t.skip(k), p);
        Seq::filter_distributes_over_add(one, s.drop_first(), p);
        if p(x) {
            // what comes before `x` does not tie with what `x` ties with
            assert forall|i: int| 0 <= i < k implies !p(#[trigger] t.take(k)[i]) by {
                assert(before(t[i], x));
                assert(before(t[i], a) || before(a, x));
            }
            filter_none(t.take(k), p);
        } else {
            assert forall|i: int| 0 <= i < 1 implies !p(#[trigger] one[i]) by {}
            filter_none(one, p);
        }
        assert(stable_sort(s, before).filter(p) =~= one.filter(p) + t.filter(p));
    }
}

proof fn groups_fix_the_order<T>(a: Seq<T>, b: Seq<T>, before: spec_fn(T, T) -> bool)
    requires
        strict_weak_order(before),
        sorted(a, before),
        sorted(b, before),
        forall|x: T| #[trigger] a.filter(ties(before, x)) == b.filter(ties(before, x)),
    ensures
        a == b,
    decreases a.len(),
{
    if a.len() == 0 {
        if b.len() > 0 {
            let x = b[0];
            assert(a.filter(ties(before, x)) == b.filter(ties(before, x)));
            filter_none(a, ties(before, x));
            filter_first(b, ties(before, x));
        }
    } else {
        let x = a[0];
        let p = ties(before, x);
        assert(a.filter(p) == b.filter(p));
        filter_first(a, p);
        b.lemma_filter_contains_rev(p, x);
        let j = choose|j: int| 0 <= j < b.len() && b[j] == x;
        let y = b[0];
        let q = ties(before, y);
        assert(a.filter(q) == b.filter(q));
        filter_first(b, q);
        a.lemma_filter_contains_rev(q, y);
        let i = choose|i: int| 0 <= i < a.len() && a[i] == y;
        // neither head goes before the other, so both lead the same group
        assert(!before(x, y) && !before(y, x)) by {
            if j > 0 {
                assert(!before(b[j], b[0]));
            }
            if i > 0 {
                assert(!before(a[i], a[0]));
            }
        }
        filter_first(b, p);
        assert(x == y);
        let s = a.drop_first();
        let t = b.drop_first();
        assert forall|i: int, j: int| #![trigger s[i], s[j]] 0 <= i < j < s.len() implies !before(
            s[j],
            s[i],
        ) by {
            assert(s[i] == a[i + 1] && s[j] == a[j + 1]);
        }
        assert forall|i: int, j: int| #![trigger t[i], t[j]] 0 <= i < j < t.len() implies !before(
            t[j],
            t[i],
        ) by {
            assert(t[i] == b[i + 1] && t[j] == b[j + 1]);
        }
        assert(a =~= seq![x] + s);
        assert(b =~= seq![x] + t);
        assert forall|z: T| #[trigger] s.filter(ties(before, z)) == t.filter(ties(before, z)) by {
            let r = ties(before, z);
            assert(a.filter(r) == b.filter(r));
            Seq::filter_distributes_over_add(seq![x], s, r);
            Seq::filter_distributes_over_add(seq![x], t, r);
            let head = seq![x].filter(r);
            assert(s.filter(r) =~= (head + s.filter(r)).skip(head.len() as int));
            assert(t.filter(r) =~= (head + t.filter(r)).skip(head.len() as int));
        }
        groups_fix_the_order(s, t, before);
    }
}

/// Lists that hold the same elements in each group of ties, in the same order, are sorted alike,
/// however the groups are mixed.
pub proof fn same_groups_sort_alike<T>(s: Seq<T>, t: Seq<T>, before: spec_fn(T, T) -> bool)
    requires
        strict_weak_order(before),
        forall|x: T| #[trigger] s.filter(ties(before, x)) == t.filter(ties(before, x)),
    ensures
        stable_sort(s, before) == stable_sort(t, before),
{
    let a = stable_sort(s, before);
    let b = stable_sort(t, before);
    stable_sort_sorts(s, before);
    stable_sort_sorts(t, before);
    assert forall|x: T| #[trigger] a.filter(ties(before, x)) == b.filter(ties(before, x)) by {
        stable_sort_keeps_ties(s, before, x);
        stable_sort_keeps_ties(t, before, x);
        assert(s.filter(ties(before, x)) == t.filter(ties(before, x)));
    }
    groups_fix_the_order(a, b, before);
}

proof fn filter_first<T>(s: Seq<T>, p: spec_fn(T) -> bool)
    requires
        s.len() > 0,
        p(s[0]),
    ensures
        s.filter(p).len() > 0,
        s.filter(p)[0] == s[0],
        s.filter(p).contains(s[0]),
{
    let one = seq![s[0]];
    assert(s =~= one + s.drop_first());
    Seq::filter_distributes_over_add(one, s.drop_first(), p);
    filter_one(one, p, 0);
}

/// Of a list in which `p` holds of one element only, that element is left.
pub proof fn filter_one<T>(s: Seq<T>, p: spec_fn(T) -> bool, i: int)
    requires
        0 <= i < s.len(),
        p(s[i]),
        forall|j: int| 0 <= j < s.len() && j != i ==> !p(#[trigger] s[j]),
    ensures
        s.filter(p) == seq![s[i]],
{
    let front = s.take(i);
    let back = s.skip(i + 1);
    let one = seq![s[i]];
    assert(s =~= front + one + back);
    Seq::filter_distributes_over_add(front + one, back, p);
    Seq::filter_distributes_over_add(front, one, p);
    filter_none(front, p);
    filter_none(back, p);
    reveal(Seq::filter);
    assert(one.drop_last() =~= Seq::empty());
    assert(one.drop_last().filter(p) =~= Seq::empty());
    assert(one.filter(p) =~= one);
}

proof fn filter_counts<T>(s: Seq<T>, p: spec_fn(T) -> bool)
    ensures
        forall|x: T| #[trigger]
            s.filter(p).to_multiset().count(x) == (if p(x) {
                s.to_multiset().count(x)
            } else {
                0
            }),
    decreases s.len(),
{
    broadcast use vstd::seq_lib::group_to_multiset_ensures;

    reveal(Seq::filter);
    if s.len() > 0 {
        let t = s.drop_last();
        filter_counts(t, p);
        assert(s =~= t.push(s.last()));
        assert(s.to_multiset() == t.to_multiset().insert(s.last()));
        if p(s.last()) {
            assert(s.filter(p).to_multiset() == t.filter(p).to_multiset().insert(s.last()));
        }
        assert forall|x: T| #[trigger] s.filter(p).to_multiset().count(x) == (if p(x) {
            s.to_multiset().count(x)
        } else {
            0
        }) by {
            assert(t.filter(p).to_multiset().count(x) == (if p(x) {
                t.to_multiset().count(x)
            } else {
                0
            }));
        }
    } else {
        assert(s.filter(p) =~= s);
        assert(s.to_multiset() =~= vstd::multiset::Multiset::empty());
    }
}

/// Where `p` holds of one element of `s` at most, lists with the same elements are filtered alike.
pub proof fn lone_elements_are_filtered_alike<T>(s: Seq<T>, t: Seq<T>, p: spec_fn(T) -> bool)
    requires
        s.to_multiset() == t.to_multiset(),
        s.filter(p).len() <= 1,
    ensures
        s.filter(p) == t.filter(p),
{
    broadcast use vstd::seq_lib::group_to_multiset_ensures;

    let a = s.filter(p);
    let b = t.filter(p);
    filter_counts(s, p);
    filter_counts(t, p);
    assert(a.to_multiset() =~= b.to_multiset());
    assert(a.len() == a.to_multiset().len() && b.len() == b.to_multiset().len());
    if a.len() == 1 {
        assert(a.contains(a[0]));
        assert(b.to_multiset().count(a[0]) > 0);
        assert(b.contains(a[0]));
    }
    assert(a =~= b);
}

proof fn filters_commute<T>(s: Seq<T>, p: spec_fn(T) -> bool, q: spec_fn(T) -> bool)
    ensures
        s.filter(p).filter(q) == s.filter(q).filter(p),
    decreases s.len(),
{
    reveal(Seq::filter);
    if s.len() > 0 {
        let t = s.drop_last();
        let x = s.last();
        filters_commute(t, p, q);
        if p(x) {
            assert(s.filter(p) =~= t.filter(p).push(x));
            assert(s.filter(p).drop_last() =~= t.filter(p));
        }
        if q(x) {
            assert(s.filter(q) =~= t.filter(q).push(x));
            assert(s.filter(q).drop_last() =~= t.filter(q));
        }
    }
}

proof fn filtering_keeps_order<T>(
    s: Seq<T>,
    p: spec_fn(T) -> bool,
    before: spec_fn(T, T) -> bool,
)
    requires
        sorted(s, before),
    ensures
        sorted(s.filter(p), before),
    decreases s.len(),
{
    reveal(Seq::filter);
    if s.len() > 0 {
        let t = s.drop_last();
        assert forall|i: int, j: int| #![trigger t[i], t[j]] 0 <= i < j < t.len() implies !before(
            t[j],
            t[i],
        ) by {
            assert(t[i] == s[i] && t[j] == s[j]);
        }
        filtering_keeps_order(t, p, before);
        let f = t.filter(p);
        if p(s.last()) {
            let out = s.filter(p);
            assert(out =~= f.push(s.last()));
            assert forall|i: int, j: int|
                #![trigger out[i], out[j]]
                0 <= i < j < out.len() implies !before(out[j], out[i]) by {
                if j == f.len() {
                    assert(f.contains(f[i]));
                    t.lemma_filter_contains_rev(p, f[i]);
                    let k = choose|k: int| 0 <= k < t.len() && t[k] == f[i];
                    assert(s[k] == f[i]);
                    assert(!before(s[s.len() - 1], s[k]));
                } else {
                    assert(out[i] == f[i] && out[j] == f[j]);
                }
            }
        }
    }
}

/// It does not matter whether a list is sorted or filtered first.
pub proof fn sorting_and_filtering_commute<T>(
    s: Seq<T>,
    p: spec_fn(T) -> bool,
    before: spec_fn(T, T) -> bool,
)
    requires
        strict_weak_order(before),
    ensures
        stable_sort(s.filter(p), before) == stable_sort(s, before).filter(p),
{
    let a = stable_sort(s.filter(p), before);
    let b = stable_sort(s, before).filter(p);
    stable_sort_sorts(s.filter(p), before);
    stable_sort_sorts(s, before);
    filtering_keeps_order(stable_sort(s, before), p, before);
    assert forall|x: T| #[trigger] a.filter(ties(before, x)) == b.filter(ties(before, x)) by {
        let q = ties(before, x);
        stable_sort_keeps_ties(s.filter(p), before, x);
        stable_sort_keeps_ties(s, before, x);
        filters_commute(stable_sort(s, before), p, q);
        filters_commute(s, p, q);
    }
    groups_fix_the_order(a, b, before);
}

/// Of a list in which `p` holds of no element, nothing is left.
pub proof fn filter_none<T>(s: Seq<T>, p: spec_fn(T) -> bool)
    requires
        forall|i: int| 0 <= i < s.len() ==> !p(#[trigger] s[i]),
    ensures
        s.filter(p) == Seq::<T>::empty(),
    decreases s.len(),
{
    reveal(Seq::filter);
    if s.len() > 0 {
        assert forall|i: int| 0 <= i < s.drop_last().len() implies !p(
            #[trigger] s.drop_last()[i],
        ) by {
            assert(s.drop_last()[i] == s[i]);
        }
        filter_none(s.drop_last(), p);
    }
}

/// `v` sorted by `less`, elements that tie in the order that they have in `v`.
pub fn sort_by<T: View>(
    v: Vec<T>,
    less: impl Fn(&T, &T) -> bool,
    Ghost(before): Ghost<spec_fn(T::V, T::V) -> bool>,
) -> (res: Vec<T>)
    requires
        strict_weak_order(before),
        forall|a: &T, b: &T| #[trigger] less.requires((a, b)),
        forall|a: &T, b: &T, r: bool| #[trigger]
            less.ensures((a, b), r) ==> r == before(a@, b@),
    ensures
        views(res@) == stable_sort(views(v@), before),
{
    let mut rest = v;
    let mut res: Vec<T> = Vec::new();
    let ghost all = views(v@);
    assert(all.skip(rest.len() as int) == Seq::<T::V>::empty());
    assert(views(res@) == Seq::<T::V>::empty());
    while rest.len() > 0
        invariant
            strict_weak_order(before),
            forall|a: &T, b: &T| #[trigger] less.requires((a, b)),
            forall|a: &T, b: &T, r: bool| #[trigger]
                less.ensures((a, b), r) ==> r == before(a@, b@),
            rest.len() <= all.len(),
            views(rest@) == all.take(rest.len() as int),
            views(res@) == stable_sort(all.skip(rest.len() as int), before),
        decreases rest.len(),
    {
        let ghost n = rest.len() as int;
        let ghost tail = all.skip(n);
        let ghost had = views(rest@);
        proof {
            stable_sort_sorts(tail, before);
        }
        match rest.pop() {
            Some(x) => {
                assert(had.last() == x@);
                assert(had.drop_last() =~= views(rest@));
                let ghost r = views(res@);
                let mut lo: usize = 0;
                let mut hi: usize = res.len();
                while lo < hi
                    invariant
                        strict_weak_order(before),
                        forall|a: &T, b: &T| #[trigger] less.requires((a, b)),
                        forall|a: &T, b: &T, r: bool| #[trigger]
                            less.ensures((a, b), r) ==> r == before(a@, b@),
                        lo <= hi <= res.len(),
                        r == views(res@),
                        sorted(r, before),
                        forall|i: int| 0 <= i < lo ==> before(#[trigger] r[i], x@),
                        forall|i: int| hi <= i < r.len() ==> !before(#[trigger] r[i], x@),
                    decreases hi - lo,
                {
                    let mid = lo + (hi - lo) / 2;
                    let ghost m = r[mid as int];
                    assert(m == res@[mid as int]@);
                    if less(&res[mid], &x) {
                        assert forall|i: int| 0 <= i < mid + 1 implies before(
                            #[trigger] r[i],
                            x@,
                        ) by {
                            if i < mid {
                                assert(!before(m, r[i]));
                                assert(before(m, r[i]) || before(r[i], x@));
                            }
                        }
                        lo = mid + 1;
                    } else {
                        assert forall|i: int| mid <= i < r.len() implies !before(
                            #[trigger] r[i],
                            x@,
                        ) by {
                            if i > mid && before(r[i], x@) {
                                assert(!before(r[i], m));
                                assert(before(r[i], m) || before(m, x@));
                            }
                        }
                        hi = mid;
                    }
                }
                proof {
                    insert_stable_is_insert(r, x@, before, lo as int);
                    let next = all.skip(n - 1);
                    assert(next[0] == x@);
                    assert(next.drop_first() == tail);
                }
                res.insert(lo, x);
                assert(views(res@) == r.insert(lo as int, x@));
            },
            None => {},
        }
    }
    assert(all.skip(0) == all);
    res
}

/// The order of texts as a predicate value.
pub open spec fn text_order() -> spec_fn(Seq<char>, Seq<char>) -> bool {
    |a: Seq<char>, b: Seq<char>| text_before(a, b)
}

/// The order of texts is a strict order whose ties form groups.
pub proof fn text_order_is_strict_weak()
    ensures
        strict_weak_order(text_order()),
{
    let before = text_order();
    assert forall|a: Seq<char>| !#[trigger] before(a, a) by {
        text_before_irreflexive(a);
    }
    assert forall|a: Seq<char>, b: Seq<char>, c: Seq<char>|
        #![trigger before(a, b), before(b, c)]
        before(a, b) && before(b, c) implies before(a, c) by {
        text_before_transitive(a, b, c);
    }
    assert forall|a: Seq<char>, b: Seq<char>, c: Seq<char>|
        #![trigger before(a, c), before(a, b)]
        #![trigger before(a, c), before(b, c)]
        before(a, c) implies before(a, b) || before(b, c) by {
        text_before_total(a, b);
        if text_before(b, a) {
            text_before_transitive(b, a, c);
        }
    }
}

/// `names` in the order of texts.
pub open spec fn in_text_order(names: Seq<Seq<char>>) -> Seq<Seq<char>> {
    stable_sort(names, text_order())
}

/// `names` in the order of texts.
pub fn sort_names(names: Vec<String>) -> (res: Vec<String>)
    ensures
        texts(res@) == in_text_order(texts(names@)),
{
    let before = |a: &String, b: &String| -> (r: bool)
        ensures
            r == text_before(a@, b@),
        { less(a.as_str(), b.as_str()) };
    proof {
        text_order_is_strict_weak();
    }
    sort_by(names, before, Ghost(text_order()))
}

/// `s` without the elements that repeat the one in front of them.
pub open spec fn without_repeats<T>(s: Seq<T>) -> Seq<T>
    decreases s.len(),
{
    if s.len() < 2 {
        s
    } else {
        let head = without_repeats(s.drop_last());
        if s[s.len() - 2] == s.last() {
            head
        } else {
            head.push(s.last())
        }
    }
}

/// `names` without those that repeat the one in front of them.
fn drop_repeats(names: Vec<String>) -> (res: Vec<String>)
    ensures
        texts(res@) == without_repeats(texts(names@)),
{
    let mut res: Vec<String> = Vec::new();
    let mut i: usize = 0;
    let ghost all = texts(names@);
    assert(all.take(0) =~= Seq::empty());
    assert(texts(res@) =~= Seq::empty());
    while i < names.len()
        invariant
            i <= names.len(),
            all == texts(names@),
            texts(res@) == without_repeats(all.take(i as int)),
        decreases names.len() - i,
    {
        let ghost next = all.take(i + 1);
        assert(next.drop_last() == all.take(i as int));
        assert(next.last() == names@[i as int]@);
        let repeats = i > 0 && same(names[i - 1].as_str(), names[i].as_str());
        let ghost had = texts(res@);
        if i > 0 {
            assert(next[next.len() - 2] == names@[i - 1]@);
        }
        if !repeats {
            res.push(names[i].clone());
            assert(texts(res@) == had.push(names@[i as int]@));
            assert(i == 0 ==> next =~= had.push(names@[0]@));
        }
        i = i + 1;
    }
    assert(all.take(i as int) == all);
    res
}

/// `names` in the order of texts, each once.
pub fn sort_unique_names(names: Vec<String>) -> (res: Vec<String>)
    ensures
        texts(res@) == without_repeats(in_text_order(texts(names@))),
{
    drop_repeats(sort_names(names))
}

/// Names sorted and each taken once stand in strictly ascending order, and are those that there
/// were.
pub proof fn unique_names_ascend(names: Seq<Seq<char>>)
    ensures
        ({
            let r = without_repeats(in_text_order(names));
            &&& forall|i: int, j: int|
                #![trigger r[i], r[j]]
                0 <= i < j < r.len() ==> text_before(r[i], r[j])
            &&& forall|name: Seq<char>| r.contains(name) == names.contains(name)
        }),
{
    let s = in_text_order(names);
    text_order_is_strict_weak();
    stable_sort_sorts(names, text_order());
    stable_sort_permutes(names, text_order());
    without_repeats_ascends(s);
    let r = without_repeats(s);
    assert forall|name: Seq<char>| r.contains(name) == names.contains(name) by {
        broadcast use vstd::seq_lib::group_to_multiset_ensures;

        assert(s.contains(name) == (s.to_multiset().count(name) > 0));
        assert(names.contains(name) == (names.to_multiset().count(name) > 0));
    }
}

proof fn without_repeats_ascends(s: Seq<Seq<char>>)
    requires
        sorted(s, text_order()),
    ensures
        ({
            let r = without_repeats(s);
            &&& r.len() <= s.len()
            &&& s.len() > 0 ==> r.len() > 0 && r.last() == s.last()
            &&& forall|i: int, j: int|
                #![trigger r[i], r[j]]
                0 <= i < j < r.len() ==> text_before(r[i], r[j])
            &&& forall|name: Seq<char>| #[trigger] r.contains(name) == s.contains(name)
        }),
    decreases s.len(),
{
    if s.len() >= 2 {
        let t = s.drop_last();
        let x = s.last();
        let y = s[s.len() - 2];
        assert forall|i: int, j: int| #![trigger t[i], t[j]] 0 <= i < j < t.len() implies !(
        text_order())(t[j], t[i]) by {
            assert(t[i] == s[i] && t[j] == s[j]);
        }
        without_repeats_ascends(t);
        assert(t.last() == y);
        let h = without_repeats(t);
        let r = without_repeats(s);
        assert(s =~= t.push(x));
        assert forall|name: Seq<char>| #[trigger] r.contains(name) == s.contains(name) by {
            if s.contains(name) {
                let i = choose|i: int| 0 <= i < s.len() && s[i] == name;
                if i < t.len() {
                    assert(t[i] == name);
                    assert(t.contains(name));
                    assert(h.contains(name));
                    let k = choose|k: int| 0 <= k < h.len() && h[k] == name;
                    assert(r[k] == name);
                } else if x == y {
                    assert(h[h.len() - 1] == name);
                } else {
                    assert(r[r.len() - 1] == name);
                }
            }
            if r.contains(name) {
                let k = choose|k: int| 0 <= k < r.len() && r[k] == name;
                if k < h.len() {
                    assert(h[k] == name);
                    assert(h.contains(name));
                    let i = choose|i: int| 0 <= i < t.len() && t[i] == name;
                    assert(s[i] == name);
                } else {
                    assert(s[s.len() - 1] == name);
                }
            }
        }
        if x != y {
            assert(!text_before(s[s.len() - 1], s[s.len() - 2]));
            text_before_total(x, y);
            assert forall|i: int, j: int| #![trigger r[i], r[j]] 0 <= i < j < r.len() implies
                text_before(r[i], r[j]) by {
                if j == h.len() {
                    if i < h.len() - 1 {
                        assert(text_before(h[i], h[h.len() - 1]));
                        text_before_transitive(h[i], y, x);
                    }
                } else {
                    assert(r[i] == h[i] && r[j] == h[j]);
                }
            }
        }
    }
}

} // verus!
