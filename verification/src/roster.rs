//! The roster and the grid together: what it means for the assigned-day
//! counters to agree with the grid, who may still be placed on a day, and
//! the one step by which anybody is placed.

use vstd::prelude::*;
use crate::employee::Employee;
use crate::grid::{
    assigned_on, day_count, in_slot, is_assigned_this_day, lemma_assigned_on, lemma_grid_view,
    lemma_placed, lemma_placed_counts, lemma_placed_day_count, occupied_slots, placed,
    well_shaped, Grid, WeekGrid,
};

verus! {

/// Every index in the grid names an employee of a roster of `n`.
pub open spec fn ids_in_range(n: nat, g: Grid) -> bool {
    forall|d: int, s: int, x: usize|
        0 <= d < 7 && 0 <= s < 3 && #[trigger] in_slot(g, d, s, x) ==> x < n
}

/// No slot lists an employee twice.
pub open spec fn no_repeats(g: Grid) -> bool {
    forall|d: int, s: int| 0 <= d < 7 && 0 <= s < 3 ==> (#[trigger] g[d][s]).no_duplicates()
}

/// Nobody stands in more than one slot of a day.
pub open spec fn one_slot_per_day(g: Grid) -> bool {
    forall|d: int, x: usize| 0 <= d < 7 ==> #[trigger] day_count(g, d, x) <= 1
}

/// Every employee's counter equals the number of slots that hold them, and
/// is at most five.
pub open spec fn counters_match(roster: Seq<Employee>, g: Grid) -> bool {
    forall|e: usize|
        e < roster.len() ==> (#[trigger] roster[e as int]).assigned_days == occupied_slots(g, e)
            && roster[e as int].assigned_days <= 5
}

/// The invariant of a schedule in the making: the grid has its shape, holds
/// only employees of the roster, no slot repeats an employee, nobody is
/// booked twice on a day, and the counters agree with the grid and stay
/// within the cap of five days.
pub open spec fn consistent(roster: Seq<Employee>, g: Grid) -> bool {
    &&& well_shaped(g)
    &&& ids_in_range(roster.len(), g)
    &&& no_repeats(g)
    &&& one_slot_per_day(g)
    &&& counters_match(roster, g)
}

/// The same people with the same wishes: only the counters may differ.
pub open spec fn same_people(before: Seq<Employee>, after: Seq<Employee>) -> bool {
    &&& before.len() == after.len()
    &&& forall|i: int|
        0 <= i < before.len() ==> (#[trigger] after[i]).name == before[i].name
            && after[i].preferred_per_day == before[i].preferred_per_day && after[i].ranking
            == before[i].ranking
}

/// Whether employee `e` of a roster of `n` may still be placed on day `d`:
/// under the cap of five days, and in no slot of that day.
pub open spec fn eligible(n: nat, g: Grid, e: usize, d: int) -> bool {
    &&& e < n
    &&& occupied_slots(g, e) < 5
    &&& !assigned_on(g, e, d)
}

/// Whether anybody may still be placed on day `d`.
pub open spec fn someone_eligible(n: nat, g: Grid, d: int) -> bool {
    exists|e: usize| eligible(n, g, e, d)
}

/// The employees among the first `m` who may still be placed on day `d`, in
/// roster order.
pub open spec fn candidates_among(n: nat, g: Grid, d: int, m: nat) -> Seq<usize>
    decreases m,
{
    if m == 0 {
        Seq::empty()
    } else {
        let rest = candidates_among(n, g, d, (m - 1) as nat);
        if eligible(n, g, (m - 1) as usize, d) {
            rest.push((m - 1) as usize)
        } else {
            rest
        }
    }
}

/// The pool for day `d`: everybody who may still be placed that day, in
/// roster order.
pub open spec fn candidates(n: nat, g: Grid, d: int) -> Seq<usize> {
    candidates_among(n, g, d, n)
}

/// The pool lists exactly the eligible employees.
pub proof fn lemma_candidates(n: nat, g: Grid, d: int, m: nat)
    requires
        m <= n,
        n <= usize::MAX,
    ensures
        forall|x: usize|
            #[trigger] candidates_among(n, g, d, m).contains(x) == (x < m && eligible(n, g, x, d)),
    decreases m,
{
    if m == 0 {
        assert forall|x: usize| !(#[trigger] candidates_among(n, g, d, m).contains(x)) by {
            vstd::seq_lib::lemma_seq_empty_contains_nothing(x);
        }
    } else {
        lemma_candidates(n, g, d, (m - 1) as nat);
        let rest = candidates_among(n, g, d, (m - 1) as nat);
        assert forall|x: usize|
            #[trigger] candidates_among(n, g, d, m).contains(x) == (x < m && eligible(
                n,
                g,
                x,
                d,
            )) by {
            assert(rest.contains(x) == (x < m - 1 && eligible(n, g, x, d)));
            if eligible(n, g, (m - 1) as usize, d) {
                vstd::seq_lib::lemma_seq_contains_after_push(rest, (m - 1) as usize, x);
            }
        }
    }
}

/// Placing an eligible employee keeps the schedule consistent once their
/// counter has been raised by one.
pub proof fn lemma_place_consistent(
    before: Seq<Employee>,
    after: Seq<Employee>,
    g: Grid,
    d: int,
    s: int,
    e: usize,
)
    requires
        consistent(before, g),
        0 <= d < 7,
        0 <= s < 3,
        eligible(before.len(), g, e, d),
        after.len() == before.len(),
        after[e as int].assigned_days == before[e as int].assigned_days + 1,
        forall|i: int| 0 <= i < before.len() && i != e ==> after[i] == before[i],
    ensures
        consistent(after, placed(g, d, s, e)),
{
    let h = placed(g, d, s, e);
    lemma_placed(g, d, s, e);
    lemma_assigned_on(g, e, d);
    assert(!in_slot(g, d, s, e));
    assert forall|d2: int, s2: int| 0 <= d2 < 7 && 0 <= s2 < 3 implies (#[trigger] h[d2][s2]).no_duplicates() by {
        assert(g[d2][s2].no_duplicates());
        if d2 == d && s2 == s {
            let old_slot = g[d][s];
            assert(!old_slot.contains(e));
            assert forall|i: int, j: int|
                0 <= i < old_slot.push(e).len() && 0 <= j < old_slot.push(e).len() && i
                    != j implies old_slot.push(e)[i] != old_slot.push(e)[j] by {
                if i < old_slot.len() && j < old_slot.len() {
                } else if i < old_slot.len() {
                    assert(old_slot.contains(old_slot[i]));
                } else {
                    assert(old_slot.contains(old_slot[j]));
                }
            }
        } else {
            assert(h[d2][s2] == g[d2][s2]);
        }
    }
    assert forall|d2: int, x: usize| 0 <= d2 < 7 implies #[trigger] day_count(h, d2, x) <= 1 by {
        lemma_placed_day_count(g, d, s, e, d2, x);
        assert(day_count(g, d2, x) <= 1);
    }
    assert forall|x: usize| x < after.len() implies (#[trigger] after[x as int]).assigned_days
        == occupied_slots(h, x) && after[x as int].assigned_days <= 5 by {
        lemma_placed_counts(g, d, s, e, x);
        assert(before[x as int].assigned_days == occupied_slots(g, x));
    }
}

/// Places employee `idx` at the end of a slot and counts the day.
///
/// The employee must be eligible for that day: this is the only way in which
/// anybody enters the grid, so nobody is ever placed beyond five days or
/// twice on one day.
pub fn assign(
    roster: &mut Vec<Employee>,
    grid: &mut WeekGrid,
    day: usize,
    slot: usize,
    idx: usize,
)
    requires
        consistent(old(roster)@, old(grid).deep_view()),
        day < 7,
        slot < 3,
        eligible(old(roster)@.len(), old(grid).deep_view(), idx, day as int),
    ensures
        final(grid).deep_view() == placed(old(grid).deep_view(), day as int, slot as int, idx),
        consistent(final(roster)@, final(grid).deep_view()),
        same_people(old(roster)@, final(roster)@),
        final(roster)@[idx as int].assigned_days == old(roster)@[idx as int].assigned_days + 1,
        forall|i: int|
            0 <= i < old(roster)@.len() && i != idx ==> final(roster)@[i] == old(roster)@[i],
{
    let ghost g = grid.deep_view();
    let ghost before = roster@;
    proof {
        lemma_grid_view(grid);
    }
    grid[day][slot].push(idx);
    proof {
        lemma_grid_view(grid);
        assert(grid.deep_view() =~~= placed(g, day as int, slot as int, idx));
    }
    let days: usize = roster[idx].assigned_days;
    roster[idx].assigned_days = days + 1;
    proof {
        lemma_place_consistent(before, roster@, g, day as int, slot as int, idx);
    }
}

/// The pool for a day: the roster indices of everybody with fewer than five
/// days who stands in no slot of that day, in roster order.
pub fn candidate_pool(roster: &Vec<Employee>, grid: &WeekGrid, day: usize) -> (pool: Vec<usize>)
    requires
        consistent(roster@, grid.deep_view()),
        day < 7,
    ensures
        pool@ == candidates(roster@.len(), grid.deep_view(), day as int),
        forall|x: usize|
            pool@.contains(x) == eligible(roster@.len(), grid.deep_view(), x, day as int),
        (pool@.len() > 0) == someone_eligible(roster@.len(), grid.deep_view(), day as int),
{
    let ghost g = grid.deep_view();
    let ghost n = roster@.len();
    let mut pool: Vec<usize> = Vec::new();
    let mut i: usize = 0;
    while i < roster.len()
        invariant
            i <= roster@.len(),
            n == roster@.len(),
            g == grid.deep_view(),
            consistent(roster@, g),
            day < 7,
            pool@ == candidates_among(n, g, day as int, i as nat),
        decreases roster@.len() - i,
    {
        let free = roster[i].assigned_days < 5 && !is_assigned_this_day(i, grid, day);
        proof {
            assert(roster@[i as int].assigned_days == occupied_slots(g, i));
            assert(free == eligible(n, g, i, day as int));
        }
        if free {
            pool.push(i);
        }
        i = i + 1;
    }
    proof {
        lemma_candidates(n, g, day as int, n);
        if pool@.len() > 0 {
            assert(pool@.contains(pool@[0]));
            assert(eligible(n, g, pool@[0], day as int));
        }
        if someone_eligible(n, g, day as int) {
            let e = choose|e: usize| eligible(n, g, e, day as int);
            assert(pool@.contains(e));
        }
    }
    pool
}

} // verus!
