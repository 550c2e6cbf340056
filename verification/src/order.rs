//! Stable sorting, by a permutation of positions.
use vstd::prelude::*;

verus! {

/// What is sorted by: pairs in their usual order, `false` before `true`.
pub type Rank = (bool, u128);

/// Whether `a` comes before `b`.
pub open spec fn ranks_before(a: Rank, b: Rank) -> bool {
    (!a.0 && b.0) || (a.0 == b.0 && a.1 < b.1)
}

/// Whether position `i` comes before position `j` in a stable sort.
pub open spec fn comes_first(ranks: Seq<Rank>, i: int, j: int) -> bool {
    ranks_before(ranks[i], ranks[j]) || (ranks[i] == ranks[j] && i < j)
}

/// Whether `order` lists the positions `lo..hi` of `ranks`, each once, in
/// sorted order; positions of equal rank keep their order.
pub open spec fn sorts_range(order: Seq<usize>, ranks: Seq<Rank>, lo: int, hi: int) -> bool {
    &&& order.len() == hi - lo
    &&& forall|i: int| 0 <= i < order.len() ==> lo <= #[trigger] order[i] < hi
    &&& forall|i: int, j: int|
        0 <= i < j < order.len() ==> comes_first(
            ranks,
            (#[trigger] order[i]) as int,
            (#[trigger] order[j]) as int,
        )
}

/// Whether `order` lists every position of `ranks` once, in sorted order.
pub open spec fn sorts(order: Seq<usize>, ranks: Seq<Rank>) -> bool {
    sorts_range(order, ranks, 0, ranks.len() as int)
}

fn is_first(ranks: &Vec<Rank>, i: usize, j: usize) -> (r: bool)
    requires
        i < ranks@.len(),
        j < ranks@.len(),
        i < j,
    ensures
        r == comes_first(ranks@, i as int, j as int),
{
    let a = ranks[i];
    let b = ranks[j];
    (!a.0 && b.0) || (a.0 == b.0 && a.1 <= b.1)
}

/// Merges the sorted positions of two neighbouring ranges.
fn merge(ranks: &Vec<Rank>, left: &Vec<usize>, right: &Vec<usize>, lo: usize, mid: usize, hi: usize) -> (r:
    Vec<usize>)
    requires
        lo <= mid <= hi <= ranks@.len(),
        sorts_range(left@, ranks@, lo as int, mid as int),
        sorts_range(right@, ranks@, mid as int, hi as int),
    ensures
        sorts_range(r@, ranks@, lo as int, hi as int),
{
    let mut r: Vec<usize> = Vec::new();
    let mut i: usize = 0;
    let mut j: usize = 0;
    while i < left.len() || j < right.len()
        invariant
            lo <= mid <= hi <= ranks@.len(),
            sorts_range(left@, ranks@, lo as int, mid as int),
            sorts_range(right@, ranks@, mid as int, hi as int),
            i <= left@.len(),
            j <= right@.len(),
            r@.len() == i + j,
            forall|n: int| 0 <= n < r@.len() ==> lo <= #[trigger] r@[n] < hi,
            forall|n: int, m: int|
                0 <= n < m < r@.len() ==> comes_first(
                    ranks@,
                    (#[trigger] r@[n]) as int,
                    (#[trigger] r@[m]) as int,
                ),
            forall|n: int, m: int|
                0 <= n < r@.len() && i <= m < left@.len() ==> comes_first(
                    ranks@,
                    (#[trigger] r@[n]) as int,
                    (#[trigger] left@[m]) as int,
                ),
            forall|n: int, m: int|
                0 <= n < r@.len() && j <= m < right@.len() ==> comes_first(
                    ranks@,
                    (#[trigger] r@[n]) as int,
                    (#[trigger] right@[m]) as int,
                ),
        decreases left@.len() - i + right@.len() - j,
    {
        let from_left = if i >= left.len() {
            false
        } else if j >= right.len() {
            true
        } else {
            is_first(ranks, left[i], right[j])
        };
        if from_left {
            proof {
                let x = left@[i as int] as int;
                assert forall|m: int| j <= m < right@.len() implies comes_first(
                    ranks@,
                    x,
                    (#[trigger] right@[m]) as int,
                ) by {
                    let y = right@[j as int] as int;
                    assert(m == j || comes_first(ranks@, y, right@[m] as int));
                }
            }
            r.push(left[i]);
            i += 1;
        } else {
            proof {
                let y = right@[j as int] as int;
                assert forall|m: int| i <= m < left@.len() implies comes_first(
                    ranks@,
                    y,
                    (#[trigger] left@[m]) as int,
                ) by {
                    let x = left@[i as int] as int;
                    assert(comes_first(ranks@, y, x));
                    assert(m == i || comes_first(ranks@, x, left@[m] as int));
                }
            }
            r.push(right[j]);
            j += 1;
        }
    }
    r
}

fn order_range(ranks: &Vec<Rank>, lo: usize, hi: usize) -> (r: Vec<usize>)
    requires
        lo <= hi <= ranks@.len(),
    ensures
        sorts_range(r@, ranks@, lo as int, hi as int),
    decreases hi - lo,
{
    let mut r: Vec<usize> = Vec::new();
    if hi - lo == 1 {
        r.push(lo);
    } else if hi - lo > 1 {
        let mid: usize = lo + (hi - lo) / 2;
        let left = order_range(ranks, lo, mid);
        let right = order_range(ranks, mid, hi);
        return merge(ranks, &left, &right, lo, mid, hi);
    }
    r
}

/// The positions of `ranks` in sorted order; positions of equal rank keep
/// their order.
pub fn stable_order(ranks: &Vec<Rank>) -> (r: Vec<usize>)
    ensures
        sorts(r@, ranks@),
{
    order_range(ranks, 0, ranks.len())
}

/// Whether a position is listed.
pub open spec fn listed(order: Seq<usize>, p: int) -> bool {
    exists|i: int| 0 <= i < order.len() && #[trigger] order[i] == p
}

/// Every position is listed.
pub proof fn lemma_order_covers(order: Seq<usize>, ranks: Seq<Rank>)
    requires
        sorts(order, ranks),
    ensures
        order.no_duplicates(),
        forall|p: int| 0 <= p < ranks.len() ==> #[trigger] listed(order, p),
{
    let n = ranks.len();
    assert(order.no_duplicates());
    let positions = Seq::new(n, |i: int| order[i] as int);
    assert(positions.no_duplicates());
    let all = vstd::set_lib::set_int_range(0, n as int);
    vstd::set_lib::lemma_int_range(0, n as int);
    positions.unique_seq_to_set();
    vstd::seq_lib::seq_to_set_is_finite(positions);
    assert(positions.to_set().subset_of(all)) by {
        assert forall|x: int| positions.to_set().contains(x) implies all.contains(x) by {
            let i = choose|i: int| 0 <= i < positions.len() && positions[i] == x;
            assert(0 <= order[i] < n);
        }
    }
    vstd::set_lib::lemma_subset_equality(positions.to_set(), all);
    assert forall|p: int| 0 <= p < n implies #[trigger] listed(order, p) by {
        assert(all.contains(p));
        assert(positions.to_set().contains(p));
        let i = choose|i: int| 0 <= i < positions.len() && positions[i] == p;
        assert(order[i] == p);
    }
}

/// An order of ranks is of all places, each once. The ranks come in order, those that
/// are marked behind all others and then the lesser before the greater, and equal ones
/// keep their places.
pub proof fn an_order_lists_every_place_once(order: Seq<usize>, ranks: Seq<Rank>)
    requires
        sorts(order, ranks),
    ensures
        order.len() == ranks.len(),
        order.no_duplicates(),
        forall|p: int| 0 <= p < ranks.len() ==> #[trigger] listed(order, p),
        forall|i: int, j: int|
            0 <= i < j < order.len() ==> {
                let a = ranks[#[trigger] order[i] as int];
                let b = ranks[#[trigger] order[j] as int];
                &&& a.0 ==> b.0
                &&& a.0 == b.0 ==> a.1 <= b.1
                &&& a == b ==> order[i] < order[j]
            },
{
    lemma_order_covers(order, ranks);
    assert forall|i: int, j: int| 0 <= i < j < order.len() implies ({
        let a = ranks[#[trigger] order[i] as int];
        let b = ranks[#[trigger] order[j] as int];
        &&& a.0 ==> b.0
        &&& a.0 == b.0 ==> a.1 <= b.1
        &&& a == b ==> order[i] < order[j]
    }) by {
        assert(comes_first(ranks, order[i] as int, order[j] as int));
    }
}

} // verus!
