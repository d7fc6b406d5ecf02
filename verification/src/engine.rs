//! The assignment engine: the preference pass, the fallback pass and what
//! both place, stated as a walk over the roster and the days of the week.

use vstd::prelude::*;
use crate::employee::{ranking_is_valid, Employee};
use crate::grid::{
    assigned_on, extends, in_slot, is_assigned_this_day, lemma_assigned_on, lemma_extends_chain,
    lemma_placed, occupied_slots, placed, well_shaped, Grid, WeekGrid,
};
use crate::roster::{assign, consistent, eligible, same_people};
use crate::shift::{shift_index, shift_to_index, Shift};

verus! {

/// Whether a pass places employee `e` on day `d`: the employee wishes for a
/// shift that day, has worked fewer than five days, and is free that day.
pub open spec fn wants_place(g: Grid, e: usize, d: int, wish: Shift) -> bool {
    &&& wish != Shift::NoPreference
    &&& occupied_slots(g, e) < 5
    &&& !assigned_on(g, e, d)
}

/// The slot that a pass places an employee into on day `d`: the shift wished
/// for in the preference pass, the first of the ranking in the fallback pass.
pub open spec fn target_slot(emp: Employee, d: int, by_rank: bool) -> int {
    if by_rank {
        shift_index(emp.effective_ranking()[0])
    } else {
        shift_index(emp.preferred_per_day@[d])
    }
}

/// The grid after a pass has dealt with employee `e` on day `d`.
pub open spec fn place_step(g: Grid, emp: Employee, e: usize, d: int, by_rank: bool) -> Grid {
    if wants_place(g, e, d, emp.preferred_per_day@[d]) {
        placed(g, d, target_slot(emp, d, by_rank), e)
    } else {
        g
    }
}

/// The grid after a pass has dealt with employee `e` on the first `n` days,
/// in day order.
pub open spec fn place_days(g: Grid, emp: Employee, e: usize, by_rank: bool, n: nat) -> Grid
    decreases n,
{
    if n == 0 {
        g
    } else {
        place_step(place_days(g, emp, e, by_rank, (n - 1) as nat), emp, e, n - 1, by_rank)
    }
}

/// The grid after a pass has dealt with the first `m` employees, in roster
/// order, each on all seven days.
pub open spec fn place_upto(g: Grid, roster: Seq<Employee>, by_rank: bool, m: nat) -> Grid
    decreases m,
{
    if m == 0 {
        g
    } else {
        place_days(
            place_upto(g, roster, by_rank, (m - 1) as nat),
            roster[m - 1],
            (m - 1) as usize,
            by_rank,
            7,
        )
    }
}

/// The grid after the preference pass.
pub open spec fn after_preferences(roster: Seq<Employee>, g: Grid) -> Grid {
    place_upto(g, roster, false, roster.len())
}

/// The grid after the fallback pass.
pub open spec fn after_fallback(roster: Seq<Employee>, g: Grid) -> Grid {
    place_upto(g, roster, true, roster.len())
}

/// Once an employee has five days, the remaining days of a pass place
/// nothing for them.
pub proof fn lemma_capped_rest(g: Grid, emp: Employee, e: usize, by_rank: bool, k: nat, n: nat)
    requires
        k <= n,
        occupied_slots(place_days(g, emp, e, by_rank, k), e) >= 5,
    ensures
        place_days(g, emp, e, by_rank, n) == place_days(g, emp, e, by_rank, k),
    decreases n,
{
    if n > k {
        lemma_capped_rest(g, emp, e, by_rank, k, (n - 1) as nat);
    }
}

/// The grid after the ranking of employee `e` has been scanned for day `d`:
/// an employee of the roster of `n` who is eligible that day joins the first
/// slot of their ranking; for anybody else the grid stays as it is.
pub open spec fn ranked_step(g: Grid, emp: Employee, e: usize, d: int, n: nat) -> Grid {
    if eligible(n, g, e, d) {
        placed(g, d, shift_index(emp.effective_ranking()[0]), e)
    } else {
        g
    }
}

/// Scans the employee's ranking in order of priority and places the employee
/// into the first ranked slot of the day, provided the employee has fewer
/// than five days and is free that day. A ranking that does not name each
/// shift once counts as the default ranking.
pub fn place_by_ranking(roster: &mut Vec<Employee>, grid: &mut WeekGrid, day: usize, idx: usize)
    requires
        consistent(old(roster)@, old(grid).deep_view()),
        day < 7,
        idx < old(roster)@.len(),
    ensures
        final(grid).deep_view() == ranked_step(
            old(grid).deep_view(),
            old(roster)@[idx as int],
            idx,
            day as int,
            old(roster)@.len(),
        ),
        !eligible(old(roster)@.len(), old(grid).deep_view(), idx, day as int) ==> final(roster)@
            == old(roster)@,
        consistent(final(roster)@, final(grid).deep_view()),
        same_people(old(roster)@, final(roster)@),
        extends(old(grid).deep_view(), final(grid).deep_view()),
{
    let ghost r0 = roster@;
    let ghost g0 = grid.deep_view();
    proof {
        lemma_extends_chain(g0, g0, g0);
    }
    let ranking = roster[idx].ranking_in_effect();
    let mut k: usize = 0;
    while k < 3
        invariant_except_break
            grid.deep_view() == g0,
            roster@ == r0,
        invariant
            k <= 3,
            day < 7,
            idx < r0.len(),
            consistent(r0, g0),
            ranking@ == r0[idx as int].effective_ranking(),
            ranking_is_valid(ranking@),
            k > 0 ==> !eligible(r0.len(), g0, idx, day as int),
        ensures
            eligible(r0.len(), g0, idx, day as int) ==> grid.deep_view() == placed(
                g0,
                day as int,
                shift_index(ranking@[0]),
                idx,
            ),
            !eligible(r0.len(), g0, idx, day as int) ==> grid.deep_view() == g0 && roster@ == r0,
            consistent(roster@, grid.deep_view()),
            same_people(r0, roster@),
            extends(g0, grid.deep_view()),
        decreases 3 - k,
    {
        if roster[idx].assigned_days >= 5 {
            break;
        }
        if !is_assigned_this_day(idx, grid, day) {
            assign(roster, grid, day, shift_to_index(ranking[k]), idx);
            proof {
                lemma_placed(g0, day as int, shift_index(ranking@[k as int]), idx);
            }
            break;
        }
        k = k + 1;
    }
}

/// The preference pass. For each employee in roster order and each day in
/// order: an employee who has reached five days is done; otherwise, where
/// the employee wishes for a shift that day and is free that day, the
/// employee joins that shift's slot.
pub fn pass_preferences(roster: &mut Vec<Employee>, grid: &mut WeekGrid)
    requires
        consistent(old(roster)@, old(grid).deep_view()),
    ensures
        final(grid).deep_view() == after_preferences(old(roster)@, old(grid).deep_view()),
        consistent(final(roster)@, final(grid).deep_view()),
        same_people(old(roster)@, final(roster)@),
        extends(old(grid).deep_view(), final(grid).deep_view()),
{
    let ghost r0 = roster@;
    let ghost g0 = grid.deep_view();
    proof {
        lemma_extends_chain(g0, g0, g0);
    }
    let mut idx: usize = 0;
    while idx < roster.len()
        invariant
            idx <= roster@.len(),
            roster@.len() == r0.len(),
            same_people(r0, roster@),
            consistent(roster@, grid.deep_view()),
            well_shaped(g0),
            extends(g0, grid.deep_view()),
            grid.deep_view() == place_upto(g0, r0, false, idx as nat),
        decreases roster@.len() - idx,
    {
        let ghost base = grid.deep_view();
        let mut day: usize = 0;
        while day < 7
            invariant_except_break
                grid.deep_view() == place_days(base, r0[idx as int], idx, false, day as nat),
            invariant
                day <= 7,
                idx < roster@.len(),
                roster@.len() == r0.len(),
                same_people(r0, roster@),
                consistent(roster@, grid.deep_view()),
                well_shaped(g0),
                extends(g0, grid.deep_view()),
            ensures
                grid.deep_view() == place_days(base, r0[idx as int], idx, false, 7),
            decreases 7 - day,
        {
            if roster[idx].assigned_days >= 5 {
                proof {
                    lemma_capped_rest(base, r0[idx as int], idx, false, day as nat, 7);
                }
                break;
            }
            let wish = roster[idx].preferred_per_day[day];
            let ghost g = grid.deep_view();
            if wish != Shift::NoPreference {
                if !is_assigned_this_day(idx, grid, day) {
                    assign(roster, grid, day, shift_to_index(wish), idx);
                    proof {
                        lemma_placed(g, day as int, shift_index(wish), idx);
                        lemma_extends_chain(g0, g, grid.deep_view());
                    }
                }
            }
            day = day + 1;
        }
        idx = idx + 1;
    }
}

/// The fallback pass. For each employee in roster order and each day in
/// order: an employee who has reached five days is done; otherwise, where
/// the employee wishes for a shift that day and is still free that day, the
/// employee's ranking is scanned and the employee joins the first ranked
/// slot of that day. Only if the employee were still free after that scan
/// would the ranking be scanned once more for the following day; the first
/// scan always places, so this never happens.
pub fn pass_fallback(roster: &mut Vec<Employee>, grid: &mut WeekGrid)
    requires
        consistent(old(roster)@, old(grid).deep_view()),
    ensures
        final(grid).deep_view() == after_fallback(old(roster)@, old(grid).deep_view()),
        consistent(final(roster)@, final(grid).deep_view()),
        same_people(old(roster)@, final(roster)@),
        extends(old(grid).deep_view(), final(grid).deep_view()),
{
    let ghost r0 = roster@;
    let ghost g0 = grid.deep_view();
    proof {
        lemma_extends_chain(g0, g0, g0);
    }
    let mut idx: usize = 0;
    while idx < roster.len()
        invariant
            idx <= roster@.len(),
            roster@.len() == r0.len(),
            same_people(r0, roster@),
            consistent(roster@, grid.deep_view()),
            well_shaped(g0),
            extends(g0, grid.deep_view()),
            grid.deep_view() == place_upto(g0, r0, true, idx as nat),
        decreases roster@.len() - idx,
    {
        let ghost base = grid.deep_view();
        let mut day: usize = 0;
        while day < 7
            invariant_except_break
                grid.deep_view() == place_days(base, r0[idx as int], idx, true, day as nat),
            invariant
                day <= 7,
                idx < roster@.len(),
                roster@.len() == r0.len(),
                same_people(r0, roster@),
                consistent(roster@, grid.deep_view()),
                well_shaped(g0),
                extends(g0, grid.deep_view()),
            ensures
                grid.deep_view() == place_days(base, r0[idx as int], idx, true, 7),
            decreases 7 - day,
        {
            if roster[idx].assigned_days >= 5 {
                proof {
                    lemma_capped_rest(base, r0[idx as int], idx, true, day as nat, 7);
                }
                break;
            }
            let wish = roster[idx].preferred_per_day[day];
            let ghost g = grid.deep_view();
            let ghost r = roster@;
            if wish != Shift::NoPreference {
                if !is_assigned_this_day(idx, grid, day) {
                    place_by_ranking(roster, grid, day, idx);
                    proof {
                        let first = r0[idx as int].effective_ranking()[0];
                        assert(r[idx as int].ranking == r0[idx as int].ranking);
                        assert(r[idx as int].effective_ranking() == r0[idx as int].effective_ranking());
                        assert(shift_index(first) < 3);
                        lemma_placed(g, day as int, shift_index(first), idx);
                        assert(in_slot(grid.deep_view(), day as int, shift_index(first), idx));
                        lemma_assigned_on(grid.deep_view(), idx, day as int);
                        lemma_extends_chain(g0, g, grid.deep_view());
                    }
                    if !is_assigned_this_day(idx, grid, day) && day + 1 < 7 {
                        place_by_ranking(roster, grid, day + 1, idx);
                    }
                }
            }
            day = day + 1;
        }
        idx = idx + 1;
    }
}

} // verus!
