//! Choosing a backend: two random choices, and the less loaded of the two.
//!
//! The backends stand in the order of their snapshot and are named by their
//! places in it. Where a connect to a backend has just failed, that backend is
//! left out of the choice as long as another one is there.

use vstd::prelude::*;

verus! {

/// The place with the lower load; where the loads are equal, the place that
/// comes first.
pub open spec fn less_loaded(first: int, first_load: nat, second: int, second_load: nat) -> int {
    if first_load < second_load {
        first
    } else if second_load < first_load {
        second
    } else if first <= second {
        first
    } else {
        second
    }
}

/// Two places below `count`, which is at least two, from two random words.
/// The second word picks any place; the first picks among all places but the
/// last, and moves to the last where it meets the second.
pub open spec fn sample_pair(count: int, a: u64, b: u64) -> (int, int) {
    let first = a as int % (count - 1);
    let second = b as int % count;
    if first == second {
        (count - 1, second)
    } else {
        (first, second)
    }
}

/// How many places there are to choose from. A single backend is never left
/// out: it has to serve, failed or not.
pub open spec fn eligible(count: int, excluded: Option<int>) -> int {
    if excluded is Some && count > 1 {
        count - 1
    } else {
        count
    }
}

/// The place that stands at `position` once `excluded` is left out.
pub open spec fn skipping(excluded: Option<int>, position: int) -> int {
    match excluded {
        Some(place) => if position >= place {
            position + 1
        } else {
            position
        },
        None => position,
    }
}

/// The two places whose loads are compared. With one place to choose from,
/// both are that place.
pub open spec fn candidates(count: int, excluded: Option<int>, a: u64, b: u64) -> (int, int) {
    if count <= 1 {
        (0, 0)
    } else if eligible(count, excluded) == 1 {
        (skipping(excluded, 0), skipping(excluded, 0))
    } else {
        let pair = sample_pair(eligible(count, excluded), a, b);
        (skipping(excluded, pair.0), skipping(excluded, pair.1))
    }
}

/// The place that is chosen among backends with these loads.
pub open spec fn chosen_place(loads: Seq<nat>, excluded: Option<int>, a: u64, b: u64) -> int {
    let pair = candidates(loads.len() as int, excluded, a, b);
    less_loaded(pair.0, loads[pair.0], pair.1, loads[pair.1])
}

/// Whether `excluded` names a place below `count`, if it names one.
pub open spec fn exclusion_fits(count: int, excluded: Option<int>) -> bool {
    excluded matches Some(place) ==> 0 <= place < count
}

/// The two places of `sample_pair` lie below `count` and differ.
pub proof fn lemma_sample_pair(count: int, a: u64, b: u64)
    requires
        count >= 2,
    ensures
        0 <= sample_pair(count, a, b).0 < count,
        0 <= sample_pair(count, a, b).1 < count,
        sample_pair(count, a, b).0 != sample_pair(count, a, b).1,
{
}

/// The candidates are places of the snapshot. Where there is more than one
/// backend, neither is the excluded one; where there is more than one to
/// choose from, they are two different places.
pub proof fn lemma_candidates(count: int, excluded: Option<int>, a: u64, b: u64)
    requires
        count >= 1,
        exclusion_fits(count, excluded),
    ensures
        0 <= candidates(count, excluded, a, b).0 < count,
        0 <= candidates(count, excluded, a, b).1 < count,
        count >= 2 ==> excluded != Some(candidates(count, excluded, a, b).0) && excluded != Some(
            candidates(count, excluded, a, b).1,
        ),
        eligible(count, excluded) >= 2 ==> candidates(count, excluded, a, b).0 != candidates(
            count,
            excluded,
            a,
            b,
        ).1,
{
    if count >= 2 && eligible(count, excluded) >= 2 {
        lemma_sample_pair(eligible(count, excluded), a, b);
    }
}

/// Two random choices. Between two different places whose loads differ, the
/// one with the lower load is taken, in whichever order they are named.
pub proof fn lemma_lower_load_wins(low: int, low_load: nat, high: int, high_load: nat)
    requires
        low != high,
        low_load < high_load,
    ensures
        less_loaded(low, low_load, high, high_load) == low,
        less_loaded(high, high_load, low, low_load) == low,
{
}

/// Between two places with equal loads the one that comes first is taken, in
/// whichever order they are named.
pub proof fn lemma_tie_goes_to_first(first: int, second: int, load: nat)
    requires
        first <= second,
    ensures
        less_loaded(first, load, second, load) == first,
        less_loaded(second, load, first, load) == first,
{
}

/// With two backends and none left out, the random words decide nothing: the
/// one with the lower load is chosen, and the first where the loads are equal.
pub proof fn lemma_two_backends(loads: Seq<nat>, a: u64, b: u64)
    requires
        loads.len() == 2,
    ensures
        chosen_place(loads, None, a, b) == (if loads[1] < loads[0] {
            1int
        } else {
            0int
        }),
{
    lemma_sample_pair(2, a, b);
}

/// The chosen place is one of the two candidates, and no candidate has a
/// lower load than it.
pub proof fn lemma_chosen_place(loads: Seq<nat>, excluded: Option<int>, a: u64, b: u64)
    requires
        loads.len() >= 1,
        exclusion_fits(loads.len() as int, excluded),
    ensures
        0 <= chosen_place(loads, excluded, a, b) < loads.len(),
        chosen_place(loads, excluded, a, b) == candidates(loads.len() as int, excluded, a, b).0
            || chosen_place(loads, excluded, a, b) == candidates(
            loads.len() as int,
            excluded,
            a,
            b,
        ).1,
        loads[chosen_place(loads, excluded, a, b)] <= loads[candidates(
            loads.len() as int,
            excluded,
            a,
            b,
        ).0],
        loads[chosen_place(loads, excluded, a, b)] <= loads[candidates(
            loads.len() as int,
            excluded,
            a,
            b,
        ).1],
        loads.len() >= 2 ==> excluded != Some(chosen_place(loads, excluded, a, b)),
{
    lemma_candidates(loads.len() as int, excluded, a, b);
}

pub fn pick_less_loaded(first: usize, first_load: u64, second: usize, second_load: u64) -> (place:
    usize)
    ensures
        place == less_loaded(first as int, first_load as nat, second as int, second_load as nat),
{
    if first_load < second_load {
        first
    } else if second_load < first_load {
        second
    } else if first <= second {
        first
    } else {
        second
    }
}

/// `sample_pair`, computed.
pub fn sample_two(count: usize, a: u64, b: u64) -> (pair: (usize, usize))
    requires
        count >= 2,
    ensures
        (pair.0 as int, pair.1 as int) == sample_pair(count as int, a, b),
        pair.0 < count,
        pair.1 < count,
        pair.0 != pair.1,
{
    let first = (a % ((count - 1) as u64)) as usize;
    let second = (b % (count as u64)) as usize;
    if first == second {
        (count - 1, second)
    } else {
        (first, second)
    }
}

/// The place that an exclusion of `excluded` leaves at `position`.
fn skip(excluded: Option<usize>, position: usize) -> (place: usize)
    requires
        position < usize::MAX,
    ensures
        place as int == skipping(as_place(excluded), position as int),
{
    match excluded {
        Some(left_out) => if position >= left_out {
            position + 1
        } else {
            position
        },
        None => position,
    }
}

/// An excluded place as a number.
pub open spec fn as_place(excluded: Option<usize>) -> Option<int> {
    match excluded {
        Some(place) => Some(place as int),
        None => None,
    }
}

/// `candidates`, computed.
pub fn pick_candidates(count: usize, excluded: Option<usize>, a: u64, b: u64) -> (pair: (
    usize,
    usize,
))
    requires
        count >= 1,
        exclusion_fits(count as int, as_place(excluded)),
    ensures
        (pair.0 as int, pair.1 as int) == candidates(count as int, as_place(excluded), a, b),
        pair.0 < count,
        pair.1 < count,
{
    proof {
        lemma_candidates(count as int, as_place(excluded), a, b);
    }
    if count <= 1 {
        (0, 0)
    } else {
        let choices = if excluded.is_some() {
            count - 1
        } else {
            count
        };
        if choices == 1 {
            let only = skip(excluded, 0);
            (only, only)
        } else {
            let pair = sample_two(choices, a, b);
            (skip(excluded, pair.0), skip(excluded, pair.1))
        }
    }
}

/// The loads as numbers.
pub open spec fn as_loads(loads: Seq<u64>) -> Seq<nat> {
    Seq::new(loads.len(), |i: int| loads[i] as nat)
}

/// Chooses among backends with the given loads, as `chosen_place` says. The
/// two random words `a` and `b` may be any numbers.
pub fn choose_place(loads: &Vec<u64>, excluded: Option<usize>, a: u64, b: u64) -> (place: usize)
    requires
        loads.len() >= 1,
        exclusion_fits(loads.len() as int, as_place(excluded)),
    ensures
        place == chosen_place(as_loads(loads@), as_place(excluded), a, b),
        place < loads.len(),
{
    let pair = pick_candidates(loads.len(), excluded, a, b);
    pick_less_loaded(pair.0, loads[pair.0], pair.1, loads[pair.1])
}

} // verus!
