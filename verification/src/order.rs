//! Sorting: the positions of a list in the order of their keys, equal keys in list order.

use vstd::prelude::*;

verus! {

/// Whether position `a` comes before position `b`: by its key, and among equal keys by place.
/// The keys run upwards, or downwards where `down` is set.
pub open spec fn precedes(keys: Seq<i64>, down: bool, a: int, b: int) -> bool {
    if keys[a] == keys[b] {
        a < b
    } else if down {
        keys[a] > keys[b]
    } else {
        keys[a] < keys[b]
    }
}

/// Whether `s` holds each position of `lo..hi` once, in the order of the keys.
pub open spec fn arranged(keys: Seq<i64>, down: bool, lo: int, hi: int, s: Seq<int>) -> bool {
    &&& s.len() == hi - lo
    &&& forall|i: int| 0 <= i < s.len() ==> lo <= #[trigger] s[i] < hi
    &&& forall|i: int, j: int|
        0 <= i < j < s.len() ==> precedes(keys, down, #[trigger] s[i], #[trigger] s[j])
    &&& forall|p: int| lo <= p < hi ==> #[trigger] s.contains(p)
}

/// The positions of `keys` in the order of the keys.
pub open spec fn order(keys: Seq<i64>, down: bool) -> Seq<int> {
    choose|s: Seq<int>| arranged(keys, down, 0, keys.len() as int, s)
}

/// The items of a list taken in the order of their keys.
pub open spec fn sorted<T>(items: Seq<T>, keys: Seq<i64>, down: bool) -> Seq<T> {
    order(keys, down).map_values(|p: int| items[p])
}

/// The items of a list that meet a condition, in list order.
pub open spec fn kept<T>(s: Seq<T>, wanted: spec_fn(T) -> bool) -> Seq<T>
    decreases s.len(),
{
    if s.len() == 0 {
        Seq::empty()
    } else if wanted(s.last()) {
        kept(s.drop_last(), wanted).push(s.last())
    } else {
        kept(s.drop_last(), wanted)
    }
}

/// What one more item adds to the kept ones.
pub proof fn lemma_kept_step<T>(s: Seq<T>, wanted: spec_fn(T) -> bool, k: int)
    requires
        0 <= k < s.len(),
    ensures
        kept(s.take(k + 1), wanted) == (if wanted(s[k]) {
            kept(s.take(k), wanted).push(s[k])
        } else {
            kept(s.take(k), wanted)
        }),
        kept(s.take(0), wanted) == Seq::<T>::empty(),
        s.take(s.len() as int) == s,
{
    assert(s.take(k + 1).drop_last() =~= s.take(k));
    assert(s.take(0) =~= Seq::<T>::empty());
    assert(s.take(s.len() as int) =~= s);
}

/// What is kept meets the condition and comes from the list.
pub proof fn lemma_kept_member<T>(s: Seq<T>, wanted: spec_fn(T) -> bool)
    ensures
        forall|i: int|
            0 <= i < kept(s, wanted).len() ==> wanted(#[trigger] kept(s, wanted)[i]) && s.contains(
                kept(s, wanted)[i],
            ),
    decreases s.len(),
{
    if s.len() > 0 {
        let shorter = s.drop_last();
        lemma_kept_member(shorter, wanted);
        assert forall|i: int| 0 <= i < kept(s, wanted).len() implies wanted(
            #[trigger] kept(s, wanted)[i],
        ) && s.contains(kept(s, wanted)[i]) by {
            if i < kept(shorter, wanted).len() {
                let x = kept(shorter, wanted)[i];
                assert(kept(s, wanted)[i] == x);
                let k = choose|k: int| 0 <= k < shorter.len() && shorter[k] == x;
                assert(s[k] == x);
            } else {
                assert(s[s.len() - 1] == kept(s, wanted)[i]);
            }
        }
    }
}

/// Sorting hands out the items of the list and no others.
pub proof fn lemma_sorted_member<T>(items: Seq<T>, keys: Seq<i64>, down: bool)
    requires
        items.len() == keys.len(),
    ensures
        sorted(items, keys, down).len() == items.len(),
        forall|i: int|
            0 <= i < items.len() ==> items.contains(#[trigger] sorted(items, keys, down)[i]),
        forall|x: T| #[trigger] items.contains(x) ==> sorted(items, keys, down).contains(x),
{
    lemma_sorted_len(items, keys, down);
    let positions = order(keys, down);
    let out = sorted(items, keys, down);
    assert forall|i: int| 0 <= i < items.len() implies items.contains(#[trigger] out[i]) by {
        assert(out[i] == items[positions[i]]);
    }
    assert forall|x: T| #[trigger] items.contains(x) implies out.contains(x) by {
        let k = choose|k: int| 0 <= k < items.len() && items[k] == x;
        assert(positions.contains(k));
        let i = choose|i: int| 0 <= i < positions.len() && positions[i] == k;
        assert(out[i] == x);
    }
}

/// No more items are kept than there are.
pub proof fn lemma_kept_len<T>(s: Seq<T>, wanted: spec_fn(T) -> bool)
    ensures
        kept(s, wanted).len() <= s.len(),
    decreases s.len(),
{
    if s.len() > 0 {
        lemma_kept_len(s.drop_last(), wanted);
    }
}

/// Every list of keys has an arrangement, so sorting keeps the number of items.
pub proof fn lemma_sorted_len<T>(items: Seq<T>, keys: Seq<i64>, down: bool)
    ensures
        arranged(keys, down, 0, keys.len() as int, order(keys, down)),
        sorted(items, keys, down).len() == keys.len(),
{
    lemma_arrangement_exists(keys, down);
}

proof fn lemma_arrangement_exists(keys: Seq<i64>, down: bool)
    ensures
        exists|s: Seq<int>| arranged(keys, down, 0, keys.len() as int, s),
    decreases keys.len(),
{
    if keys.len() == 0 {
        assert(arranged(keys, down, 0, 0, Seq::<int>::empty()));
    } else {
        let shorter = keys.drop_last();
        lemma_arrangement_exists(shorter, down);
        let n = shorter.len() as int;
        let s = choose|s: Seq<int>| arranged(shorter, down, 0, n, s);
        lemma_arrangement_grows(keys, down, s, n);
    }
}

proof fn lemma_arrangement_grows(keys: Seq<i64>, down: bool, s: Seq<int>, n: int)
    requires
        keys.len() == n + 1,
        arranged(keys.drop_last(), down, 0, n, s),
    ensures
        exists|t: Seq<int>| arranged(keys, down, 0, keys.len() as int, t),
{
    let at = slot(keys, down, s, n, n);
    lemma_slot(keys, down, s, n, n);
    let t = s.insert(at, n);
    assert forall|i: int, j: int| 0 <= i < j < t.len() implies precedes(
        keys,
        down,
        #[trigger] t[i],
        #[trigger] t[j],
    ) by {
        if i < at && at < j {
            assert(precedes(keys.drop_last(), down, s[i], s[j - 1]));
        } else if at < i {
            assert(precedes(keys.drop_last(), down, s[i - 1], s[j - 1]));
        } else if j < at {
            assert(precedes(keys.drop_last(), down, s[i], s[j]));
        }
    }
    assert forall|p: int| 0 <= p < n + 1 implies #[trigger] t.contains(p) by {
        if p == n {
            assert(t[at] == n);
        } else {
            assert(s.contains(p));
            let k = choose|k: int| 0 <= k < s.len() && s[k] == p;
            assert(t[if k < at { k } else { k + 1 }] == p);
        }
    }
    assert(arranged(keys, down, 0, keys.len() as int, t));
}

/// The place among the first `k` positions of an arrangement at which position `p` belongs.
spec fn slot(keys: Seq<i64>, down: bool, s: Seq<int>, p: int, k: int) -> int
    decreases k,
{
    if k <= 0 || precedes(keys, down, s[k - 1], p) {
        k
    } else {
        slot(keys, down, s, p, k - 1)
    }
}

proof fn lemma_slot(keys: Seq<i64>, down: bool, s: Seq<int>, n: int, k: int)
    requires
        keys.len() == n + 1,
        arranged(keys.drop_last(), down, 0, n, s),
        0 <= k <= n,
        forall|i: int| k <= i < n ==> precedes(keys, down, n, #[trigger] s[i]),
    ensures
        0 <= slot(keys, down, s, n, k) <= k,
        forall|i: int|
            0 <= i < slot(keys, down, s, n, k) ==> precedes(keys, down, #[trigger] s[i], n),
        forall|i: int|
            slot(keys, down, s, n, k) <= i < n ==> precedes(keys, down, n, #[trigger] s[i]),
    decreases k,
{
    if k <= 0 {
    } else if precedes(keys, down, s[k - 1], n) {
        assert forall|i: int| 0 <= i < k implies precedes(keys, down, #[trigger] s[i], n) by {
            if i < k - 1 {
                assert(precedes(keys.drop_last(), down, s[i], s[k - 1]));
            }
        }
    } else {
        lemma_slot(keys, down, s, n, k - 1);
    }
}

/// There is only one arrangement.
pub proof fn lemma_arranged_unique(
    keys: Seq<i64>,
    down: bool,
    lo: int,
    hi: int,
    a: Seq<int>,
    b: Seq<int>,
)
    requires
        arranged(keys, down, lo, hi, a),
        arranged(keys, down, lo, hi, b),
    ensures
        a == b,
{
    lemma_arranged_agree(keys, down, lo, hi, a, b, a.len() as int);
    assert(a =~= b);
}

proof fn lemma_arranged_agree(
    keys: Seq<i64>,
    down: bool,
    lo: int,
    hi: int,
    a: Seq<int>,
    b: Seq<int>,
    n: int,
)
    requires
        arranged(keys, down, lo, hi, a),
        arranged(keys, down, lo, hi, b),
        0 <= n <= a.len(),
    ensures
        forall|i: int| 0 <= i < n ==> a[i] == b[i],
    decreases n,
{
    if n > 0 {
        let k = n - 1;
        lemma_arranged_agree(keys, down, lo, hi, a, b, k);
        assert(b.contains(a[k]));
        assert(a.contains(b[k]));
        let p = choose|p: int| 0 <= p < b.len() && b[p] == a[k];
        let q = choose|q: int| 0 <= q < a.len() && a[q] == b[k];
        if p < k {
            assert(a[p] == b[p]);
            assert(precedes(keys, down, a[p], a[k]));
        }
        if q < k {
            assert(a[q] == b[q]);
            assert(precedes(keys, down, b[q], b[k]));
        }
        if p > k && q > k {
            assert(precedes(keys, down, b[k], b[p]));
            assert(precedes(keys, down, a[k], a[q]));
        }
    }
}

fn goes_before(keys: &Vec<i64>, down: bool, a: usize, b: usize) -> (r: bool)
    requires
        a < keys@.len(),
        b < keys@.len(),
    ensures
        r == precedes(keys@, down, a as int, b as int),
{
    let x: i64 = keys[a];
    let y: i64 = keys[b];
    if x == y {
        a < b
    } else if down {
        x > y
    } else {
        x < y
    }
}

/// The positions held by a list of indices.
pub open spec fn positions(v: Seq<usize>) -> Seq<int> {
    v.map_values(|p: usize| p as int)
}

/// Merges two neighbouring arrangements into one.
fn merge(
    keys: &Vec<i64>,
    down: bool,
    a: Vec<usize>,
    b: Vec<usize>,
    Ghost(lo): Ghost<int>,
    Ghost(mid): Ghost<int>,
    Ghost(hi): Ghost<int>,
) -> (r: Vec<usize>)
    requires
        0 <= lo <= mid <= hi <= keys@.len(),
        arranged(keys@, down, lo, mid, positions(a@)),
        arranged(keys@, down, mid, hi, positions(b@)),
    ensures
        arranged(keys@, down, lo, hi, positions(r@)),
{
    let mut r: Vec<usize> = Vec::new();
    let mut i: usize = 0;
    let mut j: usize = 0;
    let ghost pa = positions(a@);
    let ghost pb = positions(b@);
    while i < a.len() || j < b.len()
        invariant
            0 <= lo <= mid <= hi <= keys@.len(),
            pa == positions(a@),
            pb == positions(b@),
            arranged(keys@, down, lo, mid, pa),
            arranged(keys@, down, mid, hi, pb),
            i <= a@.len(),
            j <= b@.len(),
            r@.len() == i + j,
            forall|k: int| 0 <= k < r@.len() ==> lo <= #[trigger] r@[k] < hi,
            forall|k: int, l: int|
                0 <= k < l < r@.len() ==> precedes(
                    keys@,
                    down,
                    #[trigger] r@[k] as int,
                    #[trigger] r@[l] as int,
                ),
            forall|k: int, l: int|
                0 <= k < r@.len() && i <= l < pa.len() ==> precedes(
                    keys@,
                    down,
                    #[trigger] r@[k] as int,
                    #[trigger] pa[l],
                ),
            forall|k: int, l: int|
                0 <= k < r@.len() && j <= l < pb.len() ==> precedes(
                    keys@,
                    down,
                    #[trigger] r@[k] as int,
                    #[trigger] pb[l],
                ),
            forall|k: int| 0 <= k < i ==> r@.contains(#[trigger] a@[k]),
            forall|k: int| 0 <= k < j ==> r@.contains(#[trigger] b@[k]),
        decreases a@.len() - i + b@.len() - j,
    {
        let ghost old_r = r@;
        assert(i < a@.len() ==> pa[i as int] == a@[i as int]);
        assert(j < b@.len() ==> pb[j as int] == b@[j as int]);
        let from_a: bool = if i >= a.len() {
            false
        } else if j >= b.len() {
            true
        } else {
            goes_before(keys, down, a[i], b[j])
        };
        if from_a {
            r.push(a[i]);
            i = i + 1;
        } else {
            r.push(b[j]);
            j = j + 1;
        }
        assert(r@.last() == r@[r@.len() - 1]);
        assert forall|x: usize| #[trigger] old_r.contains(x) implies r@.contains(x) by {
            let k = choose|k: int| 0 <= k < old_r.len() && old_r[k] == x;
            assert(r@[k] == x);
        }
        assert(r@.contains(r@[r@.len() - 1]));
    }
    let ghost pr = positions(r@);
    assert forall|p: int| lo <= p < hi implies #[trigger] pr.contains(p) by {
        if p < mid {
            assert(pa.contains(p));
            let k = choose|k: int| 0 <= k < pa.len() && pa[k] == p;
            assert(r@.contains(a@[k]));
            let l = choose|l: int| 0 <= l < r@.len() && r@[l] == a@[k];
            assert(pr[l] == p);
        } else {
            assert(pb.contains(p));
            let k = choose|k: int| 0 <= k < pb.len() && pb[k] == p;
            assert(r@.contains(b@[k]));
            let l = choose|l: int| 0 <= l < r@.len() && r@[l] == b@[k];
            assert(pr[l] == p);
        }
    }
    r
}

fn sort_range(keys: &Vec<i64>, down: bool, lo: usize, hi: usize) -> (r: Vec<usize>)
    requires
        lo <= hi <= keys@.len(),
    ensures
        arranged(keys@, down, lo as int, hi as int, positions(r@)),
    decreases hi - lo,
{
    if hi - lo <= 1 {
        let mut r: Vec<usize> = Vec::new();
        if lo < hi {
            r.push(lo);
            assert(positions(r@)[0] == lo);
            assert forall|p: int| lo <= p < hi implies #[trigger] positions(r@).contains(p) by {
                assert(p == positions(r@)[0]);
            }
        }
        r
    } else {
        let mid: usize = lo + (hi - lo) / 2;
        let a = sort_range(keys, down, lo, mid);
        let b = sort_range(keys, down, mid, hi);
        merge(keys, down, a, b, Ghost(lo as int), Ghost(mid as int), Ghost(hi as int))
    }
}

/// The positions of the keys in key order.
pub fn sort_keys(keys: &Vec<i64>, down: bool) -> (r: Vec<usize>)
    ensures
        positions(r@) == order(keys@, down),
        arranged(keys@, down, 0, keys@.len() as int, order(keys@, down)),
{
    let r = sort_range(keys, down, 0, keys.len());
    proof {
        lemma_arranged_unique(
            keys@,
            down,
            0,
            keys@.len() as int,
            positions(r@),
            order(keys@, down),
        );
    }
    r
}

} // verus!
