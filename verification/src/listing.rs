//! Lists that have one item for each position of a sequence that meets a
//! condition, in order.

use vstd::prelude::*;

verus! {

/// `at` lists, in ascending order, the positions below `n` that meet `p`: all
/// of them, and no others.
pub open spec fn lists_all(at: Seq<int>, n: int, p: spec_fn(int) -> bool) -> bool {
    &&& forall|m: int, l: int| 0 <= m < l < at.len() ==> (#[trigger] at[m]) < (#[trigger] at[l])
    &&& forall|m: int| 0 <= m < at.len() ==> 0 <= #[trigger] at[m] < n && p(at[m])
    &&& forall|i: int| 0 <= i < n && #[trigger] p(i) ==> at.contains(i)
}

/// A list has exactly one item for each position below `n` that meets `p`, in
/// the order of the positions: the item for position `i` is `item(i)`.
pub open spec fn one_for_each<T>(
    list: Seq<T>,
    n: int,
    p: spec_fn(int) -> bool,
    item: spec_fn(int) -> T,
) -> bool {
    exists|at: Seq<int>|
        #![trigger lists_all(at, n, p)]
        {
            &&& lists_all(at, n, p)
            &&& list.len() == at.len()
            &&& forall|k: int| 0 <= k < at.len() ==> #[trigger] list[k] == item(at[k])
        }
}

/// Two lists with one item for each of the same positions are the same.
pub proof fn law_one_for_each_is_unique<T>(
    a: Seq<T>,
    b: Seq<T>,
    n: int,
    p: spec_fn(int) -> bool,
    item: spec_fn(int) -> T,
)
    requires
        one_for_each(a, n, p, item),
        one_for_each(b, n, p, item),
    ensures
        a == b,
{
    let x = choose|at: Seq<int>|
        #![trigger lists_all(at, n, p)]
        {
            &&& lists_all(at, n, p)
            &&& a.len() == at.len()
            &&& forall|k: int| 0 <= k < at.len() ==> #[trigger] a[k] == item(at[k])
        };
    let y = choose|at: Seq<int>|
        #![trigger lists_all(at, n, p)]
        {
            &&& lists_all(at, n, p)
            &&& b.len() == at.len()
            &&& forall|k: int| 0 <= k < at.len() ==> #[trigger] b[k] == item(at[k])
        };
    lemma_lists_all_is_unique(x, y, n, p);
    assert(a =~= b);
}

proof fn lemma_lists_all_is_unique(x: Seq<int>, y: Seq<int>, n: int, p: spec_fn(int) -> bool)
    requires
        lists_all(x, n, p),
        lists_all(y, n, p),
    ensures
        x == y,
{
    lemma_lists_all_prefix(x, y, n, p, x.len() as int);
    lemma_lists_all_prefix(y, x, n, p, y.len() as int);
    assert(x =~= y);
}

proof fn lemma_lists_all_prefix(
    x: Seq<int>,
    y: Seq<int>,
    n: int,
    p: spec_fn(int) -> bool,
    k: int,
)
    requires
        lists_all(x, n, p),
        lists_all(y, n, p),
        0 <= k <= x.len(),
    ensures
        k <= y.len(),
        forall|m: int| 0 <= m < k ==> #[trigger] x[m] == y[m],
    decreases k,
{
    if k > 0 {
        lemma_lists_all_prefix(x, y, n, p, k - 1);
        let last = x[k - 1];
        assert(p(last));
        assert(y.contains(last));
        let m = choose|m: int| 0 <= m < y.len() && y[m] == last;
        if m < k - 1 {
            assert(x[m] == y[m]);
            assert(x[m] < x[k - 1]);
        }
        assert(k - 1 <= m);
        if k - 1 < m {
            let other = y[k - 1];
            assert(other < y[m]);
            assert(p(other));
            assert(x.contains(other));
            let l = choose|l: int| 0 <= l < x.len() && x[l] == other;
            if l < k - 1 {
                assert(x[l] == y[l]);
                assert(y[l] < y[k - 1]);
            } else if k - 1 < l {
                assert(x[k - 1] < x[l]);
            }
        }
    }
}

/// A list of nothing has an item for each position below zero.
pub proof fn lemma_one_for_none<T>(p: spec_fn(int) -> bool, item: spec_fn(int) -> T)
    ensures
        one_for_each(Seq::<T>::empty(), 0, p, item),
{
    assert(lists_all(Seq::<int>::empty(), 0, p));
}

/// One position more: its item is added where it meets the condition.
pub proof fn lemma_one_for_next<T>(
    list: Seq<T>,
    n: int,
    p: spec_fn(int) -> bool,
    item: spec_fn(int) -> T,
)
    requires
        0 <= n,
        one_for_each(list, n, p, item),
    ensures
        p(n) ==> one_for_each(list.push(item(n)), n + 1, p, item),
        !p(n) ==> one_for_each(list, n + 1, p, item),
{
    let at = choose|at: Seq<int>|
        #![trigger lists_all(at, n, p)]
        {
            &&& lists_all(at, n, p)
            &&& list.len() == at.len()
            &&& forall|k: int| 0 <= k < at.len() ==> #[trigger] list[k] == item(at[k])
        };
    if p(n) {
        let more = at.push(n);
        assert forall|i: int| 0 <= i < n + 1 && #[trigger] p(i) implies more.contains(i) by {
            if i < n {
                assert(at.contains(i));
                let m = choose|m: int| 0 <= m < at.len() && at[m] == i;
                assert(more[m] == i);
            } else {
                assert(more[at.len() as int] == n);
            }
        }
        assert(lists_all(more, n + 1, p));
        let longer = list.push(item(n));
        assert forall|k: int| 0 <= k < more.len() implies #[trigger] longer[k] == item(more[k]) by {
            if k < at.len() {
                assert(list[k] == item(at[k]));
            }
        }
    } else {
        assert forall|i: int| 0 <= i < n + 1 && #[trigger] p(i) implies at.contains(i) by {
            assert(i < n);
        }
        assert(lists_all(at, n + 1, p));
    }
}

/// What a list has for each position depends on the positions below `n` alone.
pub proof fn lemma_one_for_each_agrees<T>(
    list: Seq<T>,
    n: int,
    p: spec_fn(int) -> bool,
    q: spec_fn(int) -> bool,
    item: spec_fn(int) -> T,
    other: spec_fn(int) -> T,
)
    requires
        one_for_each(list, n, p, item),
        forall|i: int| 0 <= i < n ==> #[trigger] p(i) == q(i),
        forall|i: int| 0 <= i < n && #[trigger] p(i) ==> item(i) == other(i),
    ensures
        one_for_each(list, n, q, other),
{
    let at = choose|at: Seq<int>|
        #![trigger lists_all(at, n, p)]
        {
            &&& lists_all(at, n, p)
            &&& list.len() == at.len()
            &&& forall|k: int| 0 <= k < at.len() ==> #[trigger] list[k] == item(at[k])
        };
    assert forall|m: int| 0 <= m < at.len() implies 0 <= #[trigger] at[m] < n && q(at[m]) by {
        assert(p(at[m]));
    }
    assert forall|i: int| 0 <= i < n && #[trigger] q(i) implies at.contains(i) by {
        assert(p(i));
    }
    assert(lists_all(at, n, q));
    assert forall|k: int| 0 <= k < at.len() implies #[trigger] list[k] == other(at[k]) by {
        assert(p(at[k]));
    }
}

/// The number of items is the number of positions that meet the condition.
pub proof fn law_one_for_each_counts<T>(
    list: Seq<T>,
    n: int,
    p: spec_fn(int) -> bool,
    item: spec_fn(int) -> T,
)
    requires
        0 <= n,
        one_for_each(list, n, p, item),
    ensures
        list.len() == vstd::set_lib::set_int_range(0, n).filter(p).len(),
{
    let at = choose|at: Seq<int>|
        #![trigger lists_all(at, n, p)]
        {
            &&& lists_all(at, n, p)
            &&& list.len() == at.len()
            &&& forall|k: int| 0 <= k < at.len() ==> #[trigger] list[k] == item(at[k])
        };
    let met = vstd::set_lib::set_int_range(0, n).filter(p);
    assert(at.no_duplicates()) by {
        assert forall|m: int, l: int|
            0 <= m < at.len() && 0 <= l < at.len() && m != l implies at[m] != at[l] by {
            if m < l {
                assert(at[m] < at[l]);
            } else {
                assert(at[l] < at[m]);
            }
        }
    }
    assert(at.to_set() =~= met) by {
        assert forall|i: int| #[trigger] at.to_set().contains(i) <==> met.contains(i) by {
            if at.to_set().contains(i) {
                let m = choose|m: int| 0 <= m < at.len() && at[m] == i;
                assert(p(at[m]));
            }
        }
    }
    at.unique_seq_to_set();
}

} // verus!
