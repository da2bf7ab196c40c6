//! Sums over lists: how they go with filtering, mapping and sorting.

use crate::arith;
use crate::order;
use vstd::prelude::*;

verus! {

/// What the items of a list add up to, each counted as `f` says.
pub open spec fn over<T>(s: Seq<T>, f: spec_fn(T) -> int) -> int {
    arith::sum(s.map_values(f))
}

/// The last item adds its own share.
pub proof fn lemma_over_last<T>(s: Seq<T>, f: spec_fn(T) -> int)
    requires
        s.len() > 0,
    ensures
        over(s, f) == over(s.drop_last(), f) + f(s.last()),
{
    assert(s.map_values(f).drop_last() =~= s.drop_last().map_values(f));
}

/// An empty list adds up to nothing, and one more item adds its own share.
pub proof fn law_sum_grows_by_each_item<T>(s: Seq<T>, f: spec_fn(T) -> int, x: T)
    ensures
        over(Seq::<T>::empty(), f) == 0,
        over(s.push(x), f) == over(s, f) + f(x),
{
    lemma_over_last(s.push(x), f);
    assert(s.push(x).drop_last() =~= s);
}

/// Items that count the same add up to the same.
pub proof fn lemma_over_same<T>(s: Seq<T>, f: spec_fn(T) -> int, g: spec_fn(T) -> int)
    requires
        forall|i: int| 0 <= i < s.len() ==> f(#[trigger] s[i]) == g(s[i]),
    ensures
        over(s, f) == over(s, g),
{
    assert(s.map_values(f) =~= s.map_values(g));
}

/// Mapping first and counting then is counting what is mapped.
pub proof fn lemma_over_map<T, U>(s: Seq<T>, g: spec_fn(T) -> U, f: spec_fn(U) -> int)
    ensures
        over(s.map_values(g), f) == over(s, |x: T| f(g(x))),
{
    assert(s.map_values(g).map_values(f) =~= s.map_values(|x: T| f(g(x))));
}

/// What is left out counts as nothing.
pub proof fn lemma_over_kept<T>(s: Seq<T>, wanted: spec_fn(T) -> bool, f: spec_fn(T) -> int)
    ensures
        over(order::kept(s, wanted), f) == over(
            s,
            |x: T|
                if wanted(x) {
                    f(x)
                } else {
                    0
                },
        ),
    decreases s.len(),
{
    let g = |x: T|
        if wanted(x) {
            f(x)
        } else {
            0
        };
    if s.len() > 0 {
        lemma_over_kept(s.drop_last(), wanted, f);
        lemma_over_last(s, g);
        if wanted(s.last()) {
            law_sum_grows_by_each_item(order::kept(s.drop_last(), wanted), f, s.last());
        }
    } else {
        assert(order::kept(s, wanted).map_values(f) =~= s.map_values(g));
    }
}

/// Taking one item out of a list takes its share out of the sum.
pub proof fn lemma_over_remove<T>(s: Seq<T>, f: spec_fn(T) -> int, k: int)
    requires
        0 <= k < s.len(),
    ensures
        over(s, f) == over(s.remove(k), f) + f(s[k]),
    decreases s.len(),
{
    lemma_over_last(s, f);
    if k == s.len() - 1 {
        assert(s.remove(k) =~= s.drop_last());
    } else {
        lemma_over_remove(s.drop_last(), f, k);
        lemma_over_last(s.remove(k), f);
        assert(s.remove(k).drop_last() =~= s.drop_last().remove(k));
        assert(s.remove(k).last() == s.last());
    }
}

/// The positions from 0 up, each once in any order, pick every item of a list once.
proof fn lemma_over_positions<T>(items: Seq<T>, s: Seq<int>, f: spec_fn(T) -> int)
    requires
        s.len() == items.len(),
        forall|i: int| 0 <= i < s.len() ==> 0 <= #[trigger] s[i] < items.len(),
        forall|i: int, j: int| 0 <= i < j < s.len() ==> #[trigger] s[i] != #[trigger] s[j],
        forall|p: int| 0 <= p < items.len() ==> #[trigger] s.contains(p),
    ensures
        over(s.map_values(|p: int| items[p]), f) == over(items, f),
    decreases items.len(),
{
    let taken = s.map_values(|p: int| items[p]);
    if items.len() == 0 {
        assert(taken =~= items);
    } else {
        let n = items.len() - 1;
        assert(s.contains(n));
        let k = choose|k: int| 0 <= k < s.len() && s[k] == n;
        let rest = s.remove(k);
        assert forall|i: int| 0 <= i < rest.len() implies 0 <= #[trigger] rest[i] < n by {
            assert(rest[i] == if i < k { s[i] } else { s[i + 1] });
        }
        assert forall|i: int, j: int| 0 <= i < j < rest.len() implies #[trigger] rest[i]
            != #[trigger] rest[j] by {
            assert(rest[i] == if i < k { s[i] } else { s[i + 1] });
            assert(rest[j] == if j < k { s[j] } else { s[j + 1] });
        }
        assert forall|p: int| 0 <= p < n implies #[trigger] rest.contains(p) by {
            assert(s.contains(p));
            let i = choose|i: int| 0 <= i < s.len() && s[i] == p;
            assert(rest[if i < k { i } else { i - 1 }] == p);
        }
        lemma_over_positions(items.drop_last(), rest, f);
        lemma_over_remove(taken, f, k);
        assert(taken.remove(k) =~= rest.map_values(|p: int| items.drop_last()[p]));
        lemma_over_last(items, f);
    }
}

/// Sorting changes no sum.
pub proof fn lemma_over_sorted<T>(items: Seq<T>, keys: Seq<i64>, down: bool, f: spec_fn(T) -> int)
    requires
        items.len() == keys.len(),
    ensures
        over(order::sorted(items, keys, down), f) == over(items, f),
{
    order::lemma_sorted_len(items, keys, down);
    lemma_over_positions(items, order::order(keys, down), f);
}

/// Where each share lies between 0 and another one, so do the sums.
pub proof fn lemma_over_between<T>(s: Seq<T>, f: spec_fn(T) -> int, g: spec_fn(T) -> int)
    requires
        forall|i: int| 0 <= i < s.len() ==> 0 <= f(#[trigger] s[i]) <= g(s[i]),
    ensures
        0 <= over(s, f) <= over(s, g),
    decreases s.len(),
{
    if s.len() > 0 {
        lemma_over_last(s, f);
        lemma_over_last(s, g);
        lemma_over_between(s.drop_last(), f, g);
    }
}

/// Counting each item once gives the length.
pub proof fn lemma_over_ones<T>(s: Seq<T>)
    ensures
        over(s, |x: T| 1int) == s.len(),
    decreases s.len(),
{
    if s.len() > 0 {
        lemma_over_last(s, |x: T| 1int);
        lemma_over_ones(s.drop_last());
    }
}

/// What is kept counts once each.
pub proof fn lemma_kept_count<T>(s: Seq<T>, wanted: spec_fn(T) -> bool)
    ensures
        order::kept(s, wanted).len() == over(
            s,
            |x: T|
                if wanted(x) {
                    1int
                } else {
                    0
                },
        ),
{
    lemma_over_ones(order::kept(s, wanted));
    lemma_over_kept(s, wanted, |x: T| 1int);
    lemma_over_same(
        s,
        |x: T|
            if wanted(x) {
                (|y: T| 1int)(x)
            } else {
                0
            },
        |x: T|
            if wanted(x) {
                1int
            } else {
                0
            },
    );
}

} // verus!
