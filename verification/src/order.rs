//! Orders: which of several things comes first by its rank.

use vstd::prelude::*;
use vstd::set_lib::{lemma_int_range, lemma_subset_equality, set_int_range};

use crate::decimal::Dec;

verus! {

/// A thing with a rank.
pub trait Ranked: Sized {
    /// The rank.
    spec fn rank(&self) -> int;

    /// Whether the rank is below that of another.
    fn ranks_below(&self, other: &Self) -> (r: bool)
        ensures
            r == (self.rank() < other.rank()),
    ;
}

impl Ranked for Dec {
    open spec fn rank(&self) -> int {
        self.units()
    }

    fn ranks_below(&self, other: &Dec) -> (r: bool) {
        self.below(*other)
    }
}

impl Ranked for u64 {
    open spec fn rank(&self) -> int {
        *self as int
    }

    fn ranks_below(&self, other: &u64) -> (r: bool) {
        *self < *other
    }
}

impl Ranked for i64 {
    open spec fn rank(&self) -> int {
        *self as int
    }

    fn ranks_below(&self, other: &i64) -> (r: bool) {
        *self < *other
    }
}

/// The ranks of several things.
pub open spec fn ranks<T: Ranked>(v: Seq<T>) -> Seq<int> {
    v.map_values(|t: T| t.rank())
}

/// Whether one place comes before another: by rank, from the top down or from the bottom up, and
/// where the ranks are equal as the places are.
pub open spec fn comes_before(r: Seq<int>, down: bool, a: usize, b: usize) -> bool {
    let (x, y) = (r[a as int], r[b as int]);
    x == y && a < b || (if down { x > y } else { x < y })
}

/// The places of all things in their order.
pub open spec fn is_order(order: Seq<usize>, r: Seq<int>, down: bool) -> bool {
    &&& order.len() == r.len()
    &&& forall|i: int| 0 <= i < order.len() ==> #[trigger] order[i] < r.len()
    &&& forall|i: int, j: int|
        0 <= i < j < order.len() ==> comes_before(r, down, #[trigger] order[i], #[trigger] order[j])
}

fn goes_first<T: Ranked>(a: &T, b: &T, down: bool) -> (r: bool)
    ensures
        r == (if down { a.rank() > b.rank() } else { a.rank() < b.rank() }),
{
    if down { b.ranks_below(a) } else { a.ranks_below(b) }
}

/// The places of all things in their order, from the top down or from the bottom up. Things of equal
/// rank stay as they stand.
pub fn sort_places<T: Ranked>(v: &Vec<T>, down: bool) -> (order: Vec<usize>)
    ensures
        is_order(order@, ranks(v@), down),
{
    let mut order: Vec<usize> = Vec::new();
    let ghost r = ranks(v@);
    let mut k: usize = 0;
    while k < v.len()
        invariant
            k <= v.len(),
            r == ranks(v@),
            order@.len() == k,
            forall|i: int| 0 <= i < k ==> #[trigger] order@[i] < k,
            forall|i: int, j: int|
                0 <= i < j < k ==> comes_before(
                    r,
                    down,
                    #[trigger] order@[i],
                    #[trigger] order@[j],
                ),
        decreases v.len() - k,
    {
        let mut at: usize = k;
        while at > 0 && goes_first(&v[k], &v[order[at - 1]], down)
            invariant
                at <= k < v.len(),
                r == ranks(v@),
                order@.len() == k,
                forall|i: int| 0 <= i < k ==> #[trigger] order@[i] < k,
                forall|i: int| at <= i < k ==> comes_before(r, down, k, #[trigger] order@[i]),
            decreases at,
        {
            at = at - 1;
        }
        let ghost before = order@;
        assert forall|i: int| 0 <= i < at implies comes_before(
            r,
            down,
            #[trigger] before[i],
            k,
        ) by {
            if i < at - 1 {
                assert(comes_before(r, down, before[i], before[at - 1]));
            }
        }
        order.insert(at, k);
        assert forall|i: int, j: int| 0 <= i < j < k + 1 implies comes_before(
            r,
            down,
            #[trigger] order@[i],
            #[trigger] order@[j],
        ) by {
            assert(order@ =~= before.insert(at as int, k));
        }
        k = k + 1;
    }
    order
}

/// From the top down no thing stands behind a lesser one, from the bottom up none behind a greater one; things of
/// equal rank stay as they stood; and every thing has exactly one place.
pub proof fn order_is_sorted(order: Seq<usize>, r: Seq<int>, down: bool)
    requires
        is_order(order, r, down),
    ensures
        order.len() == r.len(),
        forall|i: int, j: int|
            #![trigger order[i], order[j]]
            0 <= i < j < order.len() ==> order[i] != order[j] && (down ==> r[order[i] as int] >= r[order[j] as int])
                && (!down ==> r[order[i] as int] <= r[order[j] as int]) && (r[order[i] as int]
                == r[order[j] as int] ==> order[i] < order[j]),
        r.len() <= usize::MAX ==> forall|k: usize| k < r.len() ==> #[trigger] order.contains(k),
{
    assert forall|i: int, j: int| #![trigger order[i], order[j]] 0 <= i < j < order.len() implies order[i]
        != order[j] by {
        assert(comes_before(r, down, order[i], order[j]));
    }
    if r.len() <= usize::MAX {
        assert(order.no_duplicates());
        order.unique_seq_to_set();
        let all = set_int_range(0, r.len() as int);
        lemma_int_range(0, r.len() as int);
        let places = order.map_values(|k: usize| k as int);
        assert(places.no_duplicates()) by {
            assert forall|i: int, j: int| 0 <= i < places.len() && 0 <= j < places.len() && i != j implies places[i]
                != places[j] by {
                if i < j {
                    assert(order[i] != order[j]);
                } else {
                    assert(order[j] != order[i]);
                }
            }
        }
        places.unique_seq_to_set();
        assert(places.to_set().subset_of(all)) by {
            assert forall|x: int| places.to_set().contains(x) implies all.contains(x) by {
                let i = choose|i: int| 0 <= i < places.len() && places[i] == x;
                assert(order[i] < r.len());
            }
        }
        lemma_subset_equality(places.to_set(), all);
        assert forall|k: usize| k < r.len() implies #[trigger] order.contains(k) by {
            assert(all.contains(k as int));
            assert(places.to_set().contains(k as int));
            let i = choose|i: int| 0 <= i < places.len() && places[i] == k as int;
            assert(order[i] == k);
        }
    }
}

} // verus!
