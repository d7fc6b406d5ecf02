//! A week from start to finish, and what a finished week reports: the names
//! in each slot and the employees who were placed at all.

use vstd::prelude::*;
use crate::backfill::{backfill_result, pass_backfill};
use crate::employee::Employee;
use crate::engine::{after_fallback, after_preferences, pass_fallback, pass_preferences};
use crate::grid::{
    day_count, empty_grid, in_slot, lemma_grid_view, new_week, occupied_slots,
    well_shaped, Grid, WeekGrid,
};
use crate::laws::{law_fallback_is_idle_after_preferences, law_passes_read_wishes_only};
use crate::random::RandomSource;
use crate::roster::{consistent, ids_in_range, same_people};

verus! {

/// Nobody of the roster has a day assigned yet.
pub open spec fn fresh(roster: Seq<Employee>) -> bool {
    forall|i: int| 0 <= i < roster.len() ==> (#[trigger] roster[i]).assigned_days == 0
}

/// The grid that the two deterministic passes make of an empty week.
pub open spec fn planned_grid(roster: Seq<Employee>) -> Grid {
    after_fallback(roster, after_preferences(roster, empty_grid()))
}

/// Nobody stands anywhere in the empty grid.
pub proof fn lemma_empty_grid(x: usize)
    ensures
        well_shaped(empty_grid()),
        forall|d: int, s: int| 0 <= d < 7 && 0 <= s < 3 ==> !#[trigger] in_slot(empty_grid(), d, s, x),
        forall|d: int, s: int|
            0 <= d < 7 && 0 <= s < 3 ==> (#[trigger] empty_grid()[d][s]).len() == 0,
        forall|d: int| 0 <= d < 7 ==> #[trigger] day_count(empty_grid(), d, x) == 0,
        occupied_slots(empty_grid(), x) == 0,
{
    let g = empty_grid();
    assert forall|d: int, s: int| 0 <= d < 7 && 0 <= s < 3 implies !#[trigger] in_slot(
        g,
        d,
        s,
        x,
    ) && g[d][s].len() == 0 by {
        assert(g[d][s] =~= Seq::<usize>::empty());
    }
    assert forall|d: int| 0 <= d < 7 implies #[trigger] day_count(g, d, x) == 0 by {
        assert(!in_slot(g, d, 0, x));
        assert(!in_slot(g, d, 1, x));
        assert(!in_slot(g, d, 2, x));
    }
    assert(day_count(g, 0, x) == 0);
    assert(day_count(g, 1, x) == 0);
    assert(day_count(g, 2, x) == 0);
    assert(day_count(g, 3, x) == 0);
    assert(day_count(g, 4, x) == 0);
    assert(day_count(g, 5, x) == 0);
    assert(day_count(g, 6, x) == 0);
}

/// A fresh roster and the empty grid make a consistent start.
pub proof fn lemma_fresh_start(roster: Seq<Employee>)
    requires
        fresh(roster),
    ensures
        consistent(roster, empty_grid()),
{
    let g = empty_grid();
    lemma_empty_grid(0);
    assert forall|d: int, s: int, x: usize|
        0 <= d < 7 && 0 <= s < 3 && #[trigger] in_slot(g, d, s, x) implies x < roster.len() by {
        lemma_empty_grid(x);
    }
    assert forall|d: int, s: int| 0 <= d < 7 && 0 <= s < 3 implies (#[trigger] g[d][s]).no_duplicates() by {
        assert(g[d][s].len() == 0);
    }
    assert forall|d: int, x: usize| 0 <= d < 7 implies #[trigger] day_count(g, d, x) <= 1 by {
        lemma_empty_grid(x);
    }
    assert forall|e: usize| e < roster.len() implies (#[trigger] roster[e as int]).assigned_days
        == occupied_slots(g, e) && roster[e as int].assigned_days <= 5 by {
        lemma_empty_grid(e);
    }
}

/// Schedules a week for a fresh roster: the preference pass, the fallback
/// pass and the backfill pass, in that order, on an empty grid.
///
/// The first two passes are determined by the roster; the fallback pass
/// finds nothing to do after the preference pass. The backfill draws from
/// `source`, and the contract states what holds of every draw.
pub fn schedule_week(roster: &mut Vec<Employee>, source: &mut RandomSource) -> (grid: WeekGrid)
    requires
        fresh(old(roster)@),
    ensures
        consistent(final(roster)@, grid.deep_view()),
        same_people(old(roster)@, final(roster)@),
        planned_grid(old(roster)@) == after_preferences(old(roster)@, empty_grid()),
        backfill_result(old(roster)@.len(), planned_grid(old(roster)@), grid.deep_view()),
{
    let ghost r0 = roster@;
    let mut grid = new_week();
    proof {
        lemma_fresh_start(r0);
    }
    pass_preferences(roster, &mut grid);
    let ghost r1 = roster@;
    let ghost g1 = grid.deep_view();
    pass_fallback(roster, &mut grid);
    proof {
        assert(r0.len() == roster.len());
        law_passes_read_wishes_only(g1, r0, r1, true, r0.len());
        law_fallback_is_idle_after_preferences(r0, empty_grid());
    }
    let ghost r2 = roster@;
    pass_backfill(roster, &mut grid, source);
    proof {
        let r3 = roster@;
        assert(same_people(r0, r3)) by {
            assert forall|i: int| 0 <= i < r0.len() implies (#[trigger] r3[i]).name == r0[i].name
                && r3[i].preferred_per_day == r0[i].preferred_per_day && r3[i].ranking
                == r0[i].ranking by {
                assert(r1[i].name == r0[i].name);
                assert(r2[i].name == r1[i].name);
            }
        }
    }
    grid
}

/// The names of the employees in a slot, in the order in which they were
/// placed.
pub fn slot_names(roster: &Vec<Employee>, grid: &WeekGrid, day: usize, slot: usize) -> (names:
    Vec<String>)
    requires
        well_shaped(grid.deep_view()),
        ids_in_range(roster@.len(), grid.deep_view()),
        day < 7,
        slot < 3,
    ensures
        names@.len() == grid.deep_view()[day as int][slot as int].len(),
        forall|k: int|
            0 <= k < names@.len() ==> (#[trigger] names@[k]) == roster@[grid.deep_view()[day as int][slot as int][k] as int].name,
{
    let ghost g = grid.deep_view();
    proof {
        lemma_grid_view(grid);
        assert(g[day as int].len() == 3);
    }
    let ids = &grid[day][slot];
    let mut names: Vec<String> = Vec::new();
    let mut k: usize = 0;
    while k < ids.len()
        invariant
            k <= ids@.len(),
            day < 7,
            slot < 3,
            ids@ == g[day as int][slot as int],
            ids_in_range(roster@.len(), g),
            names@.len() == k,
            forall|j: int| 0 <= j < k ==> (#[trigger] names@[j]) == roster@[ids@[j] as int].name,
        decreases ids@.len() - k,
    {
        let id = ids[k];
        proof {
            assert(ids@.contains(id));
            assert(in_slot(g, day as int, slot as int, id));
        }
        names.push(roster[id].name.clone());
        k = k + 1;
    }
    names
}

/// The employees among the first `m` who stand in at least one slot, in
/// roster order.
pub open spec fn placed_among(g: Grid, m: nat) -> Seq<usize>
    decreases m,
{
    if m == 0 {
        Seq::empty()
    } else {
        let rest = placed_among(g, (m - 1) as nat);
        if occupied_slots(g, (m - 1) as usize) > 0 {
            rest.push((m - 1) as usize)
        } else {
            rest
        }
    }
}

/// `placed_among` lists exactly those of the first `m` who stand somewhere.
pub proof fn lemma_placed_among(g: Grid, m: nat)
    requires
        m <= usize::MAX,
    ensures
        forall|x: usize|
            #[trigger] placed_among(g, m).contains(x) == (x < m && occupied_slots(g, x) > 0),
    decreases m,
{
    if m == 0 {
        assert forall|x: usize| !(#[trigger] placed_among(g, m).contains(x)) by {
            vstd::seq_lib::lemma_seq_empty_contains_nothing(x);
        }
    } else {
        lemma_placed_among(g, (m - 1) as nat);
        let rest = placed_among(g, (m - 1) as nat);
        assert forall|x: usize| #[trigger]
            placed_among(g, m).contains(x) == (x < m && occupied_slots(g, x) > 0) by {
            assert(rest.contains(x) == (x < m - 1 && occupied_slots(g, x) > 0));
            if occupied_slots(g, (m - 1) as usize) > 0 {
                vstd::seq_lib::lemma_seq_contains_after_push(rest, (m - 1) as usize, x);
            }
        }
    }
}

/// The roster indices of the employees who stand in at least one slot, in
/// roster order. Their totals are their `assigned_days`.
pub fn placed_employees(roster: &Vec<Employee>, grid: &WeekGrid) -> (list: Vec<usize>)
    requires
        consistent(roster@, grid.deep_view()),
    ensures
        list@ == placed_among(grid.deep_view(), roster@.len()),
        forall|x: usize|
            list@.contains(x) == (x < roster@.len() && occupied_slots(grid.deep_view(), x) > 0),
        forall|x: usize|
            list@.contains(x) == (x < roster@.len() && roster@[x as int].assigned_days > 0),
{
    let ghost g = grid.deep_view();
    let mut list: Vec<usize> = Vec::new();
    let mut i: usize = 0;
    while i < roster.len()
        invariant
            i <= roster@.len(),
            consistent(roster@, g),
            list@ == placed_among(g, i as nat),
        decreases roster@.len() - i,
    {
        proof {
            assert(roster@[i as int].assigned_days == occupied_slots(g, i));
        }
        if roster[i].assigned_days > 0 {
            list.push(i);
        }
        i = i + 1;
    }
    proof {
        lemma_placed_among(g, roster@.len());
        assert forall|x: usize|
            list@.contains(x) == (x < roster@.len() && roster@[x as int].assigned_days > 0) by {
            if x < roster@.len() {
                assert(roster@[x as int].assigned_days == occupied_slots(g, x));
            }
        }
    }
    list
}

} // verus!
