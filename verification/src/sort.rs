//! Stable sorting by rank.

use vstd::prelude::*;

verus! {

/// Things that come in an order. Two of them may rank the same.
pub trait Ranked: Sized {
    /// `self` ranks strictly before `other`.
    spec fn before(&self, other: &Self) -> bool;

    proof fn law_irreflexive(x: &Self)
        ensures
            !x.before(x),
    ;

    proof fn law_transitive(x: &Self, y: &Self, z: &Self)
        requires
            x.before(y),
            y.before(z),
        ensures
            x.before(z),
    ;

    /// What is not before a middle, and whose middle is not before it, is transitive too.
    proof fn law_ties(x: &Self, y: &Self, z: &Self)
        requires
            !y.before(x),
            !z.before(y),
        ensures
            !z.before(x),
    ;

    fn is_before(&self, other: &Self) -> (r: bool)
        ensures
            r == self.before(other),
    ;
}

/// Item `i` has to stand before item `j`: it ranks before it, or they rank the same and it
/// came first.
pub open spec fn precedes<T: Ranked>(items: Seq<T>, i: int, j: int) -> bool {
    items[i].before(&items[j]) || (!items[j].before(&items[i]) && i < j)
}

/// `p` lists the positions `lo..hi` of `items`, each once, in the order they have to stand.
pub open spec fn orders<T: Ranked>(items: Seq<T>, p: Seq<usize>, lo: int, hi: int) -> bool {
    &&& p.len() == hi - lo
    &&& forall|k: int| 0 <= k < p.len() ==> lo <= #[trigger] p[k] < hi
    &&& forall|a: int, b: int|
        #![trigger p[a], p[b]]
        0 <= a < b < p.len() ==> precedes(items, p[a] as int, p[b] as int)
}

proof fn lemma_precedes_transitive<T: Ranked>(items: Seq<T>, i: int, j: int, k: int)
    requires
        precedes(items, i, j),
        precedes(items, j, k),
    ensures
        precedes(items, i, k),
        !precedes(items, k, i),
{
    let x = items[i];
    let y = items[j];
    let z = items[k];
    lemma_not_both(x, y);
    lemma_not_both(y, z);
    T::law_ties(&x, &y, &z);
    if x.before(&y) || y.before(&z) {
        if !x.before(&z) {
            // x is not before z, z not before y: x is not before y, and so on round.
            T::law_ties(&z, &x, &y);
            T::law_ties(&y, &z, &x);
        }
    }
    lemma_not_both(x, z);
}

proof fn lemma_not_both<T: Ranked>(x: T, y: T)
    ensures
        !(x.before(&y) && y.before(&x)),
{
    if x.before(&y) && y.before(&x) {
        T::law_transitive(&x, &y, &x);
        T::law_irreflexive(&x);
    }
}

/// The positions in such a list do not repeat.
pub proof fn lemma_orders_distinct<T: Ranked>(items: Seq<T>, p: Seq<usize>, lo: int, hi: int)
    requires
        orders(items, p, lo, hi),
    ensures
        p.no_duplicates(),
{
    assert forall|a: int, b: int| 0 <= a < b < p.len() implies p[a] != p[b] by {
        assert(precedes(items, p[a] as int, p[b] as int));
        T::law_irreflexive(&items[p[a] as int]);
    }
}

fn merge<T: Ranked>(
    items: &Vec<T>,
    left: Vec<usize>,
    right: Vec<usize>,
    Ghost(lo): Ghost<int>,
    Ghost(mid): Ghost<int>,
    Ghost(hi): Ghost<int>,
) -> (out: Vec<usize>)
    requires
        0 <= lo <= mid <= hi <= items.len(),
        orders(items@, left@, lo, mid),
        orders(items@, right@, mid, hi),
    ensures
        orders(items@, out@, lo, hi),
{
    let mut out: Vec<usize> = Vec::new();
    let mut i: usize = 0;
    let mut j: usize = 0;
    while i < left.len() || j < right.len()
        invariant
            0 <= lo <= mid <= hi <= items.len(),
            orders(items@, left@, lo, mid),
            orders(items@, right@, mid, hi),
            i <= left.len(),
            j <= right.len(),
            out.len() == i + j,
            forall|k: int| 0 <= k < out.len() ==> lo <= #[trigger] out@[k] < hi,
            forall|a: int, b: int|
                #![trigger out@[a], out@[b]]
                0 <= a < b < out.len() ==> precedes(items@, out@[a] as int, out@[b] as int),
            forall|a: int, b: int|
                #![trigger out@[a], left@[b]]
                0 <= a < out.len() && i <= b < left.len() ==> precedes(
                    items@,
                    out@[a] as int,
                    left@[b] as int,
                ),
            forall|a: int, b: int|
                #![trigger out@[a], right@[b]]
                0 <= a < out.len() && j <= b < right.len() ==> precedes(
                    items@,
                    out@[a] as int,
                    right@[b] as int,
                ),
        decreases left.len() - i + right.len() - j,
    {
        let take_left = if i >= left.len() {
            false
        } else if j >= right.len() {
            true
        } else {
            !items[right[j]].is_before(&items[left[i]])
        };
        let ghost old_out = out@;
        if take_left {
            let x = left[i];
            proof {
                assert(lo <= left@[i as int] < mid);
                if j < right.len() {
                    assert(mid <= right@[j as int] < hi);
                    assert(precedes(items@, x as int, right@[j as int] as int));
                    assert forall|b: int| j <= b < right.len() implies precedes(
                        items@,
                        x as int,
                        #[trigger] right@[b] as int,
                    ) by {
                        if b > j {
                            assert(precedes(items@, right@[j as int] as int, right@[b] as int));
                            lemma_precedes_transitive(
                                items@,
                                x as int,
                                right@[j as int] as int,
                                right@[b] as int,
                            );
                        }
                    }
                }
                assert forall|b: int| i + 1 <= b < left.len() implies precedes(
                    items@,
                    x as int,
                    #[trigger] left@[b] as int,
                ) by {
                    assert(precedes(items@, left@[i as int] as int, left@[b] as int));
                }
            }
            out.push(x);
            i += 1;
        } else {
            let x = right[j];
            proof {
                assert(mid <= right@[j as int] < hi);
                if i < left.len() {
                    assert(precedes(items@, x as int, left@[i as int] as int));
                    assert forall|b: int| i <= b < left.len() implies precedes(
                        items@,
                        x as int,
                        #[trigger] left@[b] as int,
                    ) by {
                        if b > i {
                            assert(precedes(items@, left@[i as int] as int, left@[b] as int));
                            lemma_precedes_transitive(
                                items@,
                                x as int,
                                left@[i as int] as int,
                                left@[b] as int,
                            );
                        }
                    }
                }
                assert forall|b: int| j + 1 <= b < right.len() implies precedes(
                    items@,
                    x as int,
                    #[trigger] right@[b] as int,
                ) by {
                    assert(precedes(items@, right@[j as int] as int, right@[b] as int));
                }
            }
            out.push(x);
            j += 1;
        }
        assert forall|a: int, b: int|
            #![trigger out@[a], out@[b]]
            0 <= a < b < out.len() implies precedes(items@, out@[a] as int, out@[b] as int) by {
            if b < old_out.len() {
                assert(precedes(items@, old_out[a] as int, old_out[b] as int));
            } else {
                assert(out@[a] == old_out[a]);
            }
        }
    }
    out
}

fn sort_range<T: Ranked>(items: &Vec<T>, lo: usize, hi: usize) -> (p: Vec<usize>)
    requires
        lo <= hi <= items.len(),
    ensures
        orders(items@, p@, lo as int, hi as int),
    decreases hi - lo,
{
    if hi - lo == 0 {
        Vec::new()
    } else if hi - lo == 1 {
        let mut p: Vec<usize> = Vec::new();
        p.push(lo);
        p
    } else {
        let mid: usize = lo + (hi - lo) / 2;
        let left = sort_range(items, lo, mid);
        let right = sort_range(items, mid, hi);
        merge(items, left, right, Ghost(lo as int), Ghost(mid as int), Ghost(hi as int))
    }
}

/// The positions of all items in rank order, those of the same rank in the order they had.
pub fn sorted_positions<T: Ranked>(items: &Vec<T>) -> (p: Vec<usize>)
    ensures
        orders(items@, p@, 0, items.len() as int),
        p@.no_duplicates(),
{
    let p = sort_range(items, 0, items.len());
    proof {
        lemma_orders_distinct(items@, p@, 0, items.len() as int);
    }
    p
}

/// `r` holds the items in rank order, those of the same rank in the order they had.
pub open spec fn stably_sorted<T: Ranked>(items: Seq<T>, r: Seq<T>) -> bool {
    exists|p: Seq<usize>| #[trigger] orders(items, p, 0, items.len() as int) && r == picked(items, p)
}

/// The items at these positions.
pub open spec fn picked<T>(items: Seq<T>, p: Seq<usize>) -> Seq<T> {
    Seq::new(p.len(), |k: int| items[p[k] as int])
}

/// Takes the items at the given positions, each position once.
pub fn reorder<T>(items: Vec<T>, p: &Vec<usize>) -> (r: Vec<T>)
    requires
        p@.no_duplicates(),
        forall|k: int| 0 <= k < p.len() ==> (#[trigger] p@[k]) < items.len(),
    ensures
        r@ == picked(items@, p@),
{
    let ghost whole = items@;
    let mut items = items;
    let mut slots: Vec<Option<T>> = Vec::new();
    while items.len() > 0
        invariant
            items@ == whole.take(items.len() as int),
            items.len() + slots.len() == whole.len(),
            forall|i: int|
                0 <= i < slots.len() ==> #[trigger] slots@[i] == Some(whole[whole.len() - 1 - i]),
        decreases items.len(),
    {
        let x = items.pop();
        slots.push(x);
    }
    let n: usize = slots.len();
    let mut r: Vec<T> = Vec::new();
    let mut k: usize = 0;
    while k < p.len()
        invariant
            k <= p.len(),
            n == whole.len(),
            slots.len() == n,
            p@.no_duplicates(),
            forall|i: int| 0 <= i < p.len() ==> (#[trigger] p@[i]) < n,
            forall|i: int|
                0 <= i < n && !p@.take(k as int).contains((n - 1 - i) as usize)
                    ==> #[trigger] slots@[i] == Some(whole[n - 1 - i]),
            r@ == picked(whole, p@.take(k as int)),
        decreases p.len() - k,
    {
        assert(p@[k as int] < n);
        let at: usize = n - 1 - p[k];
        assert(!p@.take(k as int).contains(p@[k as int])) by {
            if p@.take(k as int).contains(p@[k as int]) {
                let i = choose|i: int|
                    0 <= i < k && p@.take(k as int)[i] == p@[k as int];
                assert(p@[i] == p@[k as int]);
            }
        }
        let ghost before = slots@;
        let x = slots[at].take();
        proof {
            assert(before[at as int] == Some(whole[p@[k as int] as int]));
            assert(p@.take(k + 1) =~= p@.take(k as int).push(p@[k as int]));
            assert forall|i: int|
                0 <= i < n && !p@.take(k + 1).contains((n - 1 - i) as usize) implies #[trigger] slots@[i]
                == Some(whole[n - 1 - i]) by {
                if p@.take(k as int).contains((n - 1 - i) as usize) {
                    let j = choose|j: int|
                        0 <= j < k && p@.take(k as int)[j] == (n - 1 - i) as usize;
                    assert(p@.take(k + 1)[j] == (n - 1 - i) as usize);
                }
                if i == at {
                    assert(p@.take(k + 1)[k as int] == (n - 1 - i) as usize);
                }
                assert(before[i] == Some(whole[n - 1 - i]));
            }
        }
        match x {
            Some(v) => {
                r.push(v);
            },
            None => {},
        }
        assert(r@ =~= picked(whole, p@.take(k + 1)));
        k += 1;
    }
    assert(p@.take(k as int) =~= p@);
    r
}

/// Sorts by rank, keeping the order of what ranks the same.
pub fn sort_stable<T: Ranked>(items: Vec<T>) -> (r: Vec<T>)
    ensures
        stably_sorted(items@, r@),
{
    let p = sorted_positions(&items);
    reorder(items, &p)
}

/// Distinct numbers below their count go through all of them.
pub proof fn lemma_all_positions(p: Seq<usize>, n: int, x: int)
    requires
        p.len() == n,
        0 <= x < n,
        forall|k: int| 0 <= k < p.len() ==> (#[trigger] p[k]) < n,
        p.no_duplicates(),
    ensures
        exists|k: int| 0 <= k < p.len() && p[k] == x,
{
    let s = p.map_values(|v: usize| v as int);
    assert(s.no_duplicates());
    s.unique_seq_to_set();
    let all = vstd::set_lib::set_int_range(0, n);
    vstd::set_lib::lemma_int_range(0, n);
    assert(s.to_set().subset_of(all)) by {
        assert forall|v: int| s.to_set().contains(v) implies all.contains(v) by {
            let k = choose|k: int| 0 <= k < s.len() && s[k] == v;
            assert(p[k] < n);
        }
    }
    vstd::set_lib::lemma_subset_equality(s.to_set(), all);
    assert(s.to_set().contains(x));
    let k = choose|k: int| 0 <= k < s.len() && s[k] == x;
    assert(p[k] == x);
}

/// Taking every position once loses nothing and adds nothing.
pub proof fn lemma_permuted<T>(items: Seq<T>, p: Seq<usize>)
    requires
        p.len() == items.len(),
        forall|k: int| 0 <= k < p.len() ==> (#[trigger] p[k]) < items.len(),
        forall|a: int, b: int| 0 <= a < b < p.len() ==> p[a] != p[b],
    ensures
        picked(items, p).to_multiset() == items.to_multiset(),
    decreases items.len(),
{
    broadcast use vstd::seq_lib::group_to_multiset_ensures;

    if items.len() == 0 {
        assert(picked(items, p) =~= items);
    } else {
        let n = items.len() - 1;
        // The position that takes the last item.
        lemma_all_positions(p, items.len() as int, n as int);
        let k = choose|k: int| 0 <= k < p.len() && p[k] == n;
        let q = p.remove(k);
        let rest = items.drop_last();
        assert forall|j: int| 0 <= j < q.len() implies (#[trigger] q[j]) < rest.len() by {
            if j < k {
                assert(q[j] == p[j]);
            } else {
                assert(q[j] == p[j + 1]);
            }
        }
        assert forall|a: int, b: int| 0 <= a < b < q.len() implies q[a] != q[b] by {
            let a0 = if a < k {
                a
            } else {
                a + 1
            };
            let b0 = if b < k {
                b
            } else {
                b + 1
            };
            assert(q[a] == p[a0] && q[b] == p[b0]);
        }
        lemma_permuted(rest, q);
        let r = picked(items, p);
        assert(r.remove(k) =~= picked(rest, q));
        assert(r =~= r.remove(k).insert(k, items.last()));
        vstd::seq_lib::to_multiset_insert(r.remove(k), k, items.last());
        assert(items =~= rest.push(items.last()));
    }
}

} // verus!
