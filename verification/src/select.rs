//! Choosing among numbers: extremes and orderings of lists of doubles.

use vstd::prelude::*;

use crate::double::Double;

verus! {

/// Whether no number of the list is NaN.
pub open spec fn comparable(values: Seq<Double>) -> bool {
    forall|i: int| 0 <= i < values.len() ==> !(#[trigger] values[i]).nan()
}

/// Whether entry `a` stands before entry `b` in a list sorted by value, equal
/// values in the order of their places.
pub open spec fn sorts_before(values: Seq<Double>, descending: bool, a: int, b: int) -> bool {
    let (ra, rb) = (values[a].rank(), values[b].rank());
    if ra == rb {
        a < b
    } else if descending {
        rb < ra
    } else {
        ra < rb
    }
}

/// Whether `order` lists the places of `values` in stable sorted order.
pub open spec fn is_sorted_order(values: Seq<Double>, descending: bool, order: Seq<usize>) -> bool {
    &&& order.len() == values.len()
    &&& forall|i: int| 0 <= i < order.len() ==> (#[trigger] order[i]) < values.len()
    &&& forall|i: int, j: int|
        0 <= i < j < order.len() ==> sorts_before(
            values,
            descending,
            #[trigger] order[i] as int,
            #[trigger] order[j] as int,
        )
}

/// The places of `values` in stable sorted order.
pub fn sorted_order(values: &Vec<Double>, descending: bool) -> (res: Vec<usize>)
    requires
        comparable(values@),
    ensures
        is_sorted_order(values@, descending, res@),
{
    let mut order: Vec<usize> = Vec::new();
    let mut i: usize = 0;
    while i < values.len()
        invariant
            i <= values@.len(),
            comparable(values@),
            order@.len() == i,
            forall|k: int| 0 <= k < order@.len() ==> (#[trigger] order@[k]) < i,
            forall|a: int, b: int|
                0 <= a < b < order@.len() ==> sorts_before(
                    values@,
                    descending,
                    #[trigger] order@[a] as int,
                    #[trigger] order@[b] as int,
                ),
        decreases values.len() - i,
    {
        let mut at: usize = order.len();
        while at > 0 && goes_before(values[i], values[order[at - 1]], descending)
            invariant
                i < values@.len(),
                comparable(values@),
                at <= order@.len(),
                forall|k: int| 0 <= k < order@.len() ==> (#[trigger] order@[k]) < i,
                forall|k: int|
                    at <= k < order@.len() ==> sorts_before(
                        values@,
                        descending,
                        i as int,
                        #[trigger] order@[k] as int,
                    ),
            decreases at,
        {
            at -= 1;
        }
        let ghost before = order@;
        order.insert(at, i);
        assert forall|a: int, b: int| 0 <= a < b < order@.len() implies sorts_before(
            values@,
            descending,
            #[trigger] order@[a] as int,
            #[trigger] order@[b] as int,
        ) by {
            let pa = if a < at {
                a
            } else {
                a - 1
            };
            let pb = if b < at {
                b
            } else {
                b - 1
            };
            if a != at {
                assert(order@[a] == before[pa]);
            }
            if b != at {
                assert(order@[b] == before[pb]);
            }
            if b == at && a < at - 1 {
                assert(sorts_before(values@, descending, before[a] as int, before[at - 1] as int));
            }
        }
        i += 1;
    }
    order
}

/// Whether a place is in the list.
pub open spec fn is_listed(order: Seq<usize>, place: int) -> bool {
    exists|i: int| 0 <= i < order.len() && #[trigger] order[i] == place
}

/// A sorted order lists every place once, and no value stands behind one that
/// it should come before: read upwards the values never fall, read downwards
/// they never rise, and equal ones keep their places' order.
pub proof fn lemma_sorted_order(values: Seq<Double>, descending: bool, order: Seq<usize>)
    requires
        is_sorted_order(values, descending, order),
    ensures
        order.len() == values.len(),
        forall|p: int| 0 <= p < values.len() ==> #[trigger] is_listed(order, p),
        forall|i: int, j: int|
            0 <= i < j < order.len() ==> (#[trigger] order[i]) != (#[trigger] order[j]),
        !descending ==> forall|i: int, j: int|
            0 <= i < j < order.len() ==> values[#[trigger] order[i] as int].rank()
                <= values[#[trigger] order[j] as int].rank(),
        descending ==> forall|i: int, j: int|
            0 <= i < j < order.len() ==> values[#[trigger] order[j] as int].rank()
                <= values[#[trigger] order[i] as int].rank(),
        forall|i: int, j: int|
            0 <= i < j < order.len() && values[#[trigger] order[i] as int].rank()
                == values[#[trigger] order[j] as int].rank() ==> order[i] < order[j],
{
    let n = values.len() as int;
    let places = order.map_values(|p: usize| p as int);
    assert forall|i: int, j: int| 0 <= i < j < order.len() implies (#[trigger] order[i]) != (
    #[trigger] order[j]) by {
        assert(sorts_before(values, descending, order[i] as int, order[j] as int));
    }
    assert(places.no_duplicates()) by {
        assert forall|i: int, j: int| 0 <= i < places.len() && 0 <= j < places.len() && i
            != j implies places[i] != places[j] by {
            if i < j {
                assert(order[i] != order[j]);
            } else {
                assert(order[j] != order[i]);
            }
        }
    }
    places.unique_seq_to_set();
    vstd::set_lib::lemma_int_range(0, n);
    let all = vstd::set_lib::set_int_range(0, n);
    vstd::seq_lib::seq_to_set_is_finite(places);
    assert(places.to_set().subset_of(all)) by {
        assert forall|p: int| places.to_set().contains(p) implies all.contains(p) by {
            let i = choose|i: int| 0 <= i < places.len() && places[i] == p;
            assert(order[i] < values.len());
        }
    }
    vstd::set_lib::lemma_subset_equality(places.to_set(), all);
    assert forall|p: int| 0 <= p < values.len() implies #[trigger] is_listed(order, p) by {
        assert(all.contains(p));
        assert(places.contains(p));
        let i = choose|i: int| 0 <= i < places.len() && places[i] == p;
        assert(order[i] == p);
    }
}

/// The magnitude of a number is at least zero and has the same size: it is the
/// number itself or the number with its sign changed.
pub proof fn lemma_magnitudes(values: Seq<Double>)
    ensures
        magnitudes(values).len() == values.len(),
        forall|i: int|
            0 <= i < values.len() ==> (#[trigger] magnitudes(values)[i]).rank() >= 0
                && magnitudes(values)[i].rank() == (if values[i].rank() < 0 {
                -values[i].rank()
            } else {
                values[i].rank()
            }),
{
}

fn goes_before(new: Double, old: Double, descending: bool) -> (res: bool)
    requires
        !new.nan(),
        !old.nan(),
    ensures
        res == (if descending {
            old.rank() < new.rank()
        } else {
            new.rank() < old.rank()
        }),
{
    if descending {
        old.lt(new)
    } else {
        new.lt(old)
    }
}

/// Whether `best` is the place of the largest value, the last of several.
pub open spec fn is_last_max(values: Seq<Double>, best: int) -> bool {
    &&& 0 <= best < values.len()
    &&& forall|i: int| 0 <= i < values.len() ==> (#[trigger] values[i]).rank() <= values[best].rank()
    &&& forall|i: int| best < i < values.len() ==> (#[trigger] values[i]).rank() < values[best].rank()
}

/// The place of the largest value, the last of several; `None` for an empty
/// list.
pub fn last_max(values: &Vec<Double>) -> (res: Option<usize>)
    requires
        values@.len() > 1 ==> comparable(values@),
    ensures
        match res {
            Some(best) => is_last_max(values@, best as int),
            None => values@.len() == 0,
        },
{
    if values.len() == 0 {
        return None;
    }
    let mut best: usize = 0;
    let mut i: usize = 1;
    while i < values.len()
        invariant
            best < i <= values@.len(),
            values@.len() > 1 ==> comparable(values@),
            forall|k: int| 0 <= k < i ==> (#[trigger] values@[k]).rank() <= values@[best as int].rank(),
            forall|k: int|
                best < k < i ==> (#[trigger] values@[k]).rank() < values@[best as int].rank(),
        decreases values.len() - i,
    {
        if values[best].le(values[i]) {
            best = i;
        }
        i += 1;
    }
    Some(best)
}

/// Whether `best` is the place of the smallest value, the first of several.
pub open spec fn is_first_min(values: Seq<Double>, best: int) -> bool {
    &&& 0 <= best < values.len()
    &&& forall|i: int| 0 <= i < values.len() ==> values[best].rank() <= (#[trigger] values[i]).rank()
    &&& forall|i: int| 0 <= i < best ==> values[best].rank() < (#[trigger] values[i]).rank()
}

/// The place of the smallest value, the first of several; `None` for an empty
/// list.
pub fn first_min(values: &Vec<Double>) -> (res: Option<usize>)
    requires
        values@.len() > 1 ==> comparable(values@),
    ensures
        match res {
            Some(best) => is_first_min(values@, best as int),
            None => values@.len() == 0,
        },
{
    if values.len() == 0 {
        return None;
    }
    let mut best: usize = 0;
    let mut i: usize = 1;
    while i < values.len()
        invariant
            best < i <= values@.len(),
            values@.len() > 1 ==> comparable(values@),
            forall|k: int| 0 <= k < i ==> values@[best as int].rank() <= (#[trigger] values@[k]).rank(),
            forall|k: int|
                0 <= k < best ==> values@[best as int].rank() < (#[trigger] values@[k]).rank(),
        decreases values.len() - i,
    {
        if values[i].lt(values[best]) {
            best = i;
        }
        i += 1;
    }
    Some(best)
}

/// Whether some number of the list is NaN.
pub fn any_nan(values: &Vec<Double>) -> (res: bool)
    ensures
        res == !comparable(values@),
{
    let mut i: usize = 0;
    while i < values.len()
        invariant
            i <= values@.len(),
            forall|k: int| 0 <= k < i ==> !(#[trigger] values@[k]).nan(),
        decreases values.len() - i,
    {
        if values[i].is_nan() {
            return true;
        }
        i += 1;
    }
    false
}

/// Each value with its sign removed.
pub open spec fn magnitudes(values: Seq<Double>) -> Seq<Double> {
    values.map_values(|x: Double| x.magnitude_double())
}

/// Removes the sign of each value.
pub fn absolute(values: &Vec<Double>) -> (res: Vec<Double>)
    ensures
        res@ == magnitudes(values@),
        comparable(values@) ==> comparable(res@),
{
    let mut out: Vec<Double> = Vec::new();
    let mut i: usize = 0;
    while i < values.len()
        invariant
            i <= values@.len(),
            out@ == magnitudes(values@).take(i as int),
            forall|k: int| 0 <= k < i ==> (#[trigger] out@[k]).nan() == values@[k].nan(),
        decreases values.len() - i,
    {
        out.push(values[i].abs());
        i += 1;
        assert(out@ =~= magnitudes(values@).take(i as int));
    }
    assert(magnitudes(values@).take(values@.len() as int) =~= magnitudes(values@));
    out
}

} // verus!
