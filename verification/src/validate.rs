//! Checking at run time that a roster and a grid make a consistent schedule,
//! for callers who did not build them with this library.

use vstd::prelude::*;
use crate::employee::Employee;
use crate::grid::{
    day_count, in_slot, lemma_grid_view, occupied_slots, slot_contains, slot_count, well_shaped,
    WeekGrid,
};
use crate::roster::{
    consistent, counters_match, ids_in_range, no_repeats, one_slot_per_day,
};

verus! {

/// Whether the grid has seven days of three slots each.
fn has_week_shape(grid: &WeekGrid) -> (ok: bool)
    ensures
        ok == well_shaped(grid.deep_view()),
{
    proof {
        lemma_grid_view(grid);
    }
    if grid.len() != 7 {
        return false;
    }
    let mut d: usize = 0;
    while d < 7
        invariant
            d <= 7,
            grid@.len() == 7,
            grid.deep_view().len() == 7,
            forall|i: int| 0 <= i < 7 ==> (#[trigger] grid.deep_view()[i]).len() == grid@[i]@.len(),
            forall|i: int| 0 <= i < d ==> (#[trigger] grid.deep_view()[i]).len() == 3,
        decreases 7 - d,
    {
        if grid[d].len() != 3 {
            assert(grid.deep_view()[d as int].len() != 3);
            return false;
        }
        d = d + 1;
    }
    true
}

/// Whether every entry of a slot is below `n` and none occurs twice.
fn slot_is_sound(slot: &Vec<usize>, n: usize) -> (ok: bool)
    ensures
        ok == ((forall|k: int| 0 <= k < slot@.len() ==> slot@[k] < n) && slot@.no_duplicates()),
{
    let mut i: usize = 0;
    while i < slot.len()
        invariant
            i <= slot@.len(),
            forall|k: int| 0 <= k < i ==> slot@[k] < n,
            forall|a: int, b: int| 0 <= a < b < i ==> slot@[a] != slot@[b],
        decreases slot@.len() - i,
    {
        if slot[i] >= n {
            return false;
        }
        let mut j: usize = 0;
        while j < i
            invariant
                j <= i,
                i < slot@.len(),
                forall|a: int| 0 <= a < j ==> slot@[a] != slot@[i as int],
            decreases i - j,
        {
            if slot[j] == slot[i] {
                return false;
            }
            j = j + 1;
        }
        i = i + 1;
    }
    assert forall|a: int, b: int|
        0 <= a < slot@.len() && 0 <= b < slot@.len() && a != b implies slot@[a] != slot@[b] by {
        if a < b {
        } else {
            assert(slot@[b] != slot@[a]);
        }
    }
    true
}

/// Whether every slot holds employees of a roster of `n` only, each at most
/// once.
fn slots_are_sound(grid: &WeekGrid, n: usize) -> (ok: bool)
    requires
        well_shaped(grid.deep_view()),
    ensures
        ok == (ids_in_range(n as nat, grid.deep_view()) && no_repeats(grid.deep_view())),
{
    let ghost g = grid.deep_view();
    proof {
        lemma_grid_view(grid);
        assert forall|i: int| 0 <= i < 7 implies (#[trigger] grid@[i])@.len() == 3 by {
            assert(g[i].len() == 3);
        }
    }
    let mut d: usize = 0;
    while d < 7
        invariant
            d <= 7,
            g == grid.deep_view(),
            well_shaped(g),
            grid@.len() == 7,
            forall|i: int| 0 <= i < 7 ==> (#[trigger] grid@[i])@.len() == 3,
            forall|i: int, s: int| 0 <= i < 7 && 0 <= s < 3 ==> #[trigger] g[i][s] == grid@[i]@[s]@,
            forall|i: int, s: int, x: usize|
                0 <= i < d && 0 <= s < 3 && #[trigger] in_slot(g, i, s, x) ==> x < n,
            forall|i: int, s: int| 0 <= i < d && 0 <= s < 3 ==> (#[trigger] g[i][s]).no_duplicates(),
        decreases 7 - d,
    {
        assert(g[d as int].len() == 3);
        let mut s: usize = 0;
        while s < 3
            invariant
                s <= 3,
                d < 7,
                g == grid.deep_view(),
                well_shaped(g),
                grid@.len() == 7,
                forall|i: int| 0 <= i < 7 ==> (#[trigger] grid@[i])@.len() == 3,
                forall|i: int, t: int|
                    0 <= i < 7 && 0 <= t < 3 ==> #[trigger] g[i][t] == grid@[i]@[t]@,
                forall|t: int, x: usize|
                    0 <= t < s && #[trigger] in_slot(g, d as int, t, x) ==> x < n,
                forall|t: int| 0 <= t < s ==> (#[trigger] g[d as int][t]).no_duplicates(),
            decreases 3 - s,
        {
            assert(grid@[d as int]@.len() == 3);
            let sound = slot_is_sound(&grid[d][s], n);
            let ghost slot = g[d as int][s as int];
            assert(slot == grid@[d as int]@[s as int]@);
            if !sound {
                proof {
                    if !slot.no_duplicates() {
                        assert(!no_repeats(g));
                    } else {
                        let k = choose|k: int| 0 <= k < slot.len() && !(slot[k] < n);
                        assert(slot.contains(slot[k]));
                        assert(in_slot(g, d as int, s as int, slot[k]));
                        assert(!ids_in_range(n as nat, g));
                    }
                }
                return false;
            }
            s = s + 1;
        }
        d = d + 1;
    }
    true
}

/// The number of slots of a day that hold the employee.
fn slots_held_on(grid: &WeekGrid, e: usize, day: usize) -> (count: usize)
    requires
        well_shaped(grid.deep_view()),
        day < 7,
    ensures
        count == day_count(grid.deep_view(), day as int, e),
        count <= 3,
{
    let ghost g = grid.deep_view();
    proof {
        lemma_grid_view(grid);
        assert(g[day as int].len() == 3);
    }
    let a: usize = if slot_contains(&grid[day][0], e) { 1 } else { 0 };
    let b: usize = if slot_contains(&grid[day][1], e) { 1 } else { 0 };
    let c: usize = if slot_contains(&grid[day][2], e) { 1 } else { 0 };
    proof {
        assert(a == slot_count(g, day as int, 0, e));
        assert(b == slot_count(g, day as int, 1, e));
        assert(c == slot_count(g, day as int, 2, e));
    }
    a + b + c
}

/// Whether the employee holds at most one slot on each day, and at most
/// five and exactly `expected` over the week.
fn counter_is_sound(grid: &WeekGrid, e: usize, expected: usize) -> (ok: bool)
    requires
        well_shaped(grid.deep_view()),
    ensures
        ok ==> forall|d: int| 0 <= d < 7 ==> #[trigger] day_count(grid.deep_view(), d, e) <= 1,
        ok ==> expected == occupied_slots(grid.deep_view(), e) && expected <= 5,
        !ok ==> (exists|d: int| 0 <= d < 7 && #[trigger] day_count(grid.deep_view(), d, e) > 1)
            || expected != occupied_slots(grid.deep_view(), e) || expected > 5,
{
    let ghost g = grid.deep_view();
    let d0 = slots_held_on(grid, e, 0);
    let d1 = slots_held_on(grid, e, 1);
    let d2 = slots_held_on(grid, e, 2);
    let d3 = slots_held_on(grid, e, 3);
    let d4 = slots_held_on(grid, e, 4);
    let d5 = slots_held_on(grid, e, 5);
    let d6 = slots_held_on(grid, e, 6);
    let single = d0 <= 1 && d1 <= 1 && d2 <= 1 && d3 <= 1 && d4 <= 1 && d5 <= 1 && d6 <= 1;
    let total: usize = d0 + d1 + d2 + d3 + d4 + d5 + d6;
    proof {
        assert(total == occupied_slots(g, e));
        if !single {
            let d: int = if d0 > 1 { 0 } else if d1 > 1 { 1 } else if d2 > 1 { 2 } else if d3 > 1 { 3 } else if d4 > 1 { 4 } else if d5 > 1 { 5 } else { 6 };
            assert(day_count(g, d, e) > 1);
        }
    }
    single && total == expected && expected <= 5
}

/// Whether nobody holds two slots on a day and every counter agrees with
/// the grid and is at most five.
fn counters_are_sound(roster: &Vec<Employee>, grid: &WeekGrid) -> (ok: bool)
    requires
        well_shaped(grid.deep_view()),
        ids_in_range(roster@.len(), grid.deep_view()),
    ensures
        ok == (one_slot_per_day(grid.deep_view()) && counters_match(roster@, grid.deep_view())),
{
    let ghost g = grid.deep_view();
    let mut e: usize = 0;
    while e < roster.len()
        invariant
            e <= roster@.len(),
            g == grid.deep_view(),
            well_shaped(g),
            ids_in_range(roster@.len(), g),
            forall|x: usize, d: int| x < e && 0 <= d < 7 ==> #[trigger] day_count(g, d, x) <= 1,
            forall|x: usize|
                x < e ==> (#[trigger] roster@[x as int]).assigned_days == occupied_slots(g, x)
                    && roster@[x as int].assigned_days <= 5,
        decreases roster@.len() - e,
    {
        if !counter_is_sound(grid, e, roster[e].assigned_days) {
            proof {
                if exists|d: int| 0 <= d < 7 && #[trigger] day_count(g, d, e) > 1 {
                    assert(!one_slot_per_day(g));
                } else {
                    assert(!(roster@[e as int].assigned_days == occupied_slots(g, e)
                        && roster@[e as int].assigned_days <= 5));
                    assert(!counters_match(roster@, g));
                }
            }
            return false;
        }
        e = e + 1;
    }
    proof {
        assert forall|d: int, x: usize| 0 <= d < 7 implies #[trigger] day_count(g, d, x) <= 1 by {
            if x >= roster@.len() {
                assert(!in_slot(g, d, 0, x));
                assert(!in_slot(g, d, 1, x));
                assert(!in_slot(g, d, 2, x));
            }
        }
    }
    true
}

/// Whether the roster and the grid make a consistent schedule: the grid has
/// its shape and holds only employees of the roster, no slot lists anybody
/// twice, nobody holds two slots on one day, and every counter equals the
/// number of slots that hold the employee and is at most five.
pub fn is_consistent(roster: &Vec<Employee>, grid: &WeekGrid) -> (ok: bool)
    ensures
        ok == consistent(roster@, grid.deep_view()),
{
    has_week_shape(grid) && slots_are_sound(grid, roster.len()) && counters_are_sound(
        roster,
        grid,
    )
}

} // verus!
