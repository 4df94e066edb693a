//! Sums over the stations that a predicate keeps, taken in station order or
//! along a list of station numbers.

use vstd::prelude::*;

verus! {

/// The sum of `term(j)` over the stations `j < n` that `keep` holds of.
pub open spec fn range_sum(term: spec_fn(int) -> int, keep: spec_fn(int) -> bool, n: int) -> int
    decreases n,
{
    if n <= 0 {
        0
    } else {
        range_sum(term, keep, n - 1) + if keep(n - 1) {
            term(n - 1)
        } else {
            0
        }
    }
}

/// The sum of `term(j)` over the entries `j` of `list` that `keep` holds of.
pub open spec fn list_sum(
    term: spec_fn(int) -> int,
    keep: spec_fn(int) -> bool,
    list: Seq<usize>,
) -> int
    decreases list.len(),
{
    if list.len() == 0 {
        0
    } else {
        list_sum(term, keep, list.drop_last()) + if keep(list.last() as int) {
            term(list.last() as int)
        } else {
            0
        }
    }
}

/// Sums whose predicates and terms agree on the stations below `n` are equal.
pub proof fn lemma_range_sum_same(
    term1: spec_fn(int) -> int,
    keep1: spec_fn(int) -> bool,
    term2: spec_fn(int) -> int,
    keep2: spec_fn(int) -> bool,
    n: int,
)
    requires
        forall|j: int| 0 <= j < n ==> #[trigger] keep1(j) == keep2(j),
        forall|j: int| 0 <= j < n && keep1(j) ==> #[trigger] term1(j) == term2(j),
    ensures
        range_sum(term1, keep1, n) == range_sum(term2, keep2, n),
    decreases n,
{
    if n > 0 {
        lemma_range_sum_same(term1, keep1, term2, keep2, n - 1);
    }
}

/// Taking one station out of the predicate takes its term out of the sum.
pub proof fn lemma_range_sum_without(
    term: spec_fn(int) -> int,
    keep: spec_fn(int) -> bool,
    rest: spec_fn(int) -> bool,
    x: int,
    n: int,
)
    requires
        forall|j: int| 0 <= j < n ==> #[trigger] rest(j) == (keep(j) && j != x),
    ensures
        range_sum(term, keep, n) == range_sum(term, rest, n) + if 0 <= x < n && keep(x) {
            term(x)
        } else {
            0
        },
    decreases n,
{
    if n > 0 {
        lemma_range_sum_without(term, keep, rest, x, n - 1);
    }
}

/// A sum along a list that names no station twice is the sum, in station
/// order, over the stations that the list names.
pub proof fn lemma_list_sum_is_range_sum(
    term: spec_fn(int) -> int,
    keep: spec_fn(int) -> bool,
    list: Seq<usize>,
    listed: spec_fn(int) -> bool,
    n: int,
)
    requires
        list.no_duplicates(),
        forall|k: int| 0 <= k < list.len() ==> list[k] < n,
        forall|j: int|
            0 <= j < n ==> #[trigger] listed(j) == (keep(j) && list.contains(j as usize)),
        n <= usize::MAX,
    ensures
        list_sum(term, keep, list) == range_sum(term, listed, n),
    decreases list.len(),
{
    if list.len() == 0 {
        let none = |j: int| false;
        lemma_range_sum_same(term, listed, term, none, n);
        lemma_range_sum_zero(term, none, n);
    } else {
        let x = list.last() as int;
        let front = list.drop_last();
        let rest = |j: int| keep(j) && front.contains(j as usize);
        assert forall|j: int| 0 <= j < n implies #[trigger] rest(j) == (listed(j) && j != x) by {
            if front.contains(j as usize) {
                let k = choose|k: int| 0 <= k < front.len() && front[k] == j as usize;
                assert(list[k] == j as usize);
                assert(list[k] != list[list.len() - 1]);
            }
            if list.contains(j as usize) && j != x {
                let k = choose|k: int| 0 <= k < list.len() && list[k] == j as usize;
                assert(front[k] == j as usize);
            }
        }
        assert(front.no_duplicates());
        lemma_list_sum_is_range_sum(term, keep, front, rest, n);
        lemma_range_sum_without(term, listed, rest, x, n);
        assert(list[list.len() - 1] == x as usize);
        assert(list.contains(x as usize));
    }
}

/// A sum over no station is zero.
pub proof fn lemma_range_sum_zero(term: spec_fn(int) -> int, keep: spec_fn(int) -> bool, n: int)
    requires
        forall|j: int| 0 <= j < n ==> !#[trigger] keep(j),
    ensures
        range_sum(term, keep, n) == 0,
    decreases n,
{
    if n > 0 {
        lemma_range_sum_zero(term, keep, n - 1);
    }
}

/// The items of the stations `j < n` that `keep` holds of, in station order.
pub open spec fn collect<T>(item: spec_fn(int) -> T, keep: spec_fn(int) -> bool, n: int) -> Seq<T>
    decreases n,
{
    if n <= 0 {
        Seq::empty()
    } else if keep(n - 1) {
        collect(item, keep, n - 1).push(item(n - 1))
    } else {
        collect(item, keep, n - 1)
    }
}

/// What [`collect`] holds: the items of the kept stations, and, where no two
/// kept stations share an item, each once.
pub proof fn lemma_collect<T>(item: spec_fn(int) -> T, keep: spec_fn(int) -> bool, n: int)
    requires
        forall|a: int, b: int|
            0 <= a < b < n && keep(a) && keep(b) ==> #[trigger] item(a) != #[trigger] item(b),
    ensures
        collect(item, keep, n).len() <= if n >= 0 {
            n
        } else {
            0
        },
        collect(item, keep, n).no_duplicates(),
        forall|j: int| 0 <= j < n && keep(j) ==> collect(item, keep, n).contains(#[trigger] item(j)),
        forall|k: int|
            0 <= k < collect(item, keep, n).len() ==> from_kept(
                item,
                keep,
                n,
                #[trigger] collect(item, keep, n)[k],
            ),
    decreases n,
{
    let all = collect(item, keep, n);
    if n > 0 {
        let front = collect(item, keep, n - 1);
        lemma_collect(item, keep, n - 1);
        assert forall|k: int| 0 <= k < all.len() implies from_kept(item, keep, n, #[trigger] all[k]) by {
            if k < front.len() {
                assert(front[k] == all[k]);
                assert(from_kept(item, keep, n - 1, front[k]));
                let j = choose|j: int| 0 <= j < n - 1 && #[trigger] keep(j) && item(j) == front[k];
                assert(keep(j) && item(j) == all[k]);
            } else {
                assert(keep(n - 1) && item(n - 1) == all[k]);
            }
        }
        if keep(n - 1) {
            assert forall|j: int| 0 <= j < n && keep(j) implies all.contains(
                #[trigger] item(j),
            ) by {
                if j < n - 1 {
                    let k = choose|k: int| 0 <= k < front.len() && front[k] == item(j);
                    assert(all[k] == item(j));
                } else {
                    assert(all[all.len() - 1] == item(j));
                }
            }
            assert forall|a: int, b: int|
                0 <= a < all.len() && 0 <= b < all.len() && a != b implies all[a] != all[b] by {
                if a < front.len() && b < front.len() {
                    assert(front[a] != front[b]);
                } else if a < front.len() {
                    assert(from_kept(item, keep, n - 1, front[a]));
                    let j = choose|j: int| 0 <= j < n - 1 && #[trigger] keep(j) && item(j) == front[a];
                    assert(item(j) != item(n - 1));
                } else {
                    assert(from_kept(item, keep, n - 1, front[b]));
                    let j = choose|j: int| 0 <= j < n - 1 && #[trigger] keep(j) && item(j) == front[b];
                    assert(item(j) != item(n - 1));
                }
            }
        }
    }
}

/// Collections whose predicates and items agree on the stations below `n`
/// are equal.
pub proof fn lemma_collect_same<T>(
    item1: spec_fn(int) -> T,
    keep1: spec_fn(int) -> bool,
    item2: spec_fn(int) -> T,
    keep2: spec_fn(int) -> bool,
    n: int,
)
    requires
        forall|j: int| 0 <= j < n ==> #[trigger] keep1(j) == keep2(j),
        forall|j: int| 0 <= j < n ==> #[trigger] item1(j) == item2(j),
    ensures
        collect(item1, keep1, n) == collect(item2, keep2, n),
    decreases n,
{
    if n > 0 {
        lemma_collect_same(item1, keep1, item2, keep2, n - 1);
    }
}

/// Whether `x` is the item of a kept station below `n`.
pub open spec fn from_kept<T>(item: spec_fn(int) -> T, keep: spec_fn(int) -> bool, n: int, x: T) -> bool {
    exists|j: int| 0 <= j < n && #[trigger] keep(j) && item(j) == x
}

/// Two sequences without repetitions that hold the same items hold them
/// equally often.
pub proof fn lemma_same_members_same_multiset<T>(a: Seq<T>, b: Seq<T>)
    requires
        a.no_duplicates(),
        b.no_duplicates(),
        forall|x: T| a.contains(x) <==> b.contains(x),
    ensures
        a.to_multiset() == b.to_multiset(),
{
    a.lemma_multiset_has_no_duplicates();
    b.lemma_multiset_has_no_duplicates();
    assert forall|x: T| a.to_multiset().count(x) == b.to_multiset().count(x) by {
        vstd::seq_lib::to_multiset_contains(a, x);
        vstd::seq_lib::to_multiset_contains(b, x);
    }
    assert(a.to_multiset() =~= b.to_multiset());
}

} // verus!
