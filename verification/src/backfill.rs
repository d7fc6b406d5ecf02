//! The backfill pass: slots with fewer than two employees are filled, one
//! random draw at a time, from those who may still work that day.

use vstd::prelude::*;
use crate::employee::Employee;
use crate::grid::{
    extends, lemma_extends_chain, lemma_extends_keeps, lemma_grid_view, lemma_placed, placed,
    well_shaped, Grid, WeekGrid,
};
use crate::random::RandomSource;
use crate::roster::{
    assign, candidate_pool, consistent, eligible, same_people, someone_eligible,
};

verus! {

/// Whether `fin` is a grid that the backfill can end with when it stands at
/// slot `s` of day `d` with grid `g`, for a roster of `n`.
///
/// The backfill walks the days in order and, within a day, the slots in
/// order. At a slot with fewer than two employees it places somebody who is
/// eligible that day, whoever the draw picks, and looks again; it moves on
/// once the slot holds two or nobody is eligible.
pub open spec fn backfill_from(n: nat, g: Grid, d: int, s: int, fin: Grid) -> bool
    decreases 7 - d, 3 - s, 2 - g[d][s].len(),
    when well_shaped(g) && 0 <= d && 0 <= s
{
    if d >= 7 {
        fin == g
    } else if s >= 3 {
        backfill_from(n, g, d + 1, 0, fin)
    } else if g[d][s].len() >= 2 || !someone_eligible(n, g, d) {
        backfill_from(n, g, d, s + 1, fin)
    } else {
        exists|e: usize|
            {
                &&& #[trigger] eligible(n, g, e, d)
                &&& backfill_from(n, placed(g, d, s, e), d, s, fin)
            }
    }
}

/// Slot `(d2, s2)` comes before slot `(d, s)` in the order of the walk.
pub open spec fn comes_before(d2: int, s2: int, d: int, s: int) -> bool {
    d2 < d || (d2 == d && s2 < s)
}

/// A slot that held two or more is as it was; one that held fewer holds at
/// most two.
pub open spec fn filled_to_two(before: Grid, after: Grid) -> bool {
    forall|d: int, s: int|
        0 <= d < 7 && 0 <= s < 3 ==> {
            &&& before[d][s].len() >= 2 ==> #[trigger] after[d][s] == before[d][s]
            &&& before[d][s].len() < 2 ==> after[d][s].len() <= 2
        }
}

/// Every slot before `(d, s)` holds at least two employees, or nobody of the
/// roster of `n` is eligible on its day.
pub open spec fn staffed_before(n: nat, g: Grid, d: int, s: int) -> bool {
    forall|d2: int, s2: int|
        0 <= d2 < 7 && 0 <= s2 < 3 && comes_before(d2, s2, d, s) ==> (#[trigger] g[d2][s2]).len()
            >= 2 || !someone_eligible(n, g, d2)
}

/// Whoever joined a slot was eligible for its day before the pass began:
/// under five days, and free that day.
pub open spec fn newcomers_eligible(n: nat, before: Grid, after: Grid) -> bool {
    forall|d: int, s: int, k: int|
        0 <= d < 7 && 0 <= s < 3 && before[d][s].len() <= k < after[d][s].len() ==> eligible(
            n,
            before,
            #[trigger] after[d][s][k],
            d,
        )
}

/// Whatever the backfill can end with from `(g, d, s)`, it can end with
/// from the start with `g0`.
pub open spec fn leads_back(n: nat, g0: Grid, g: Grid, d: int, s: int) -> bool {
    forall|fin: Grid| #[trigger] backfill_from(n, g, d, s, fin) ==> backfill_from(n, g0, 0, 0, fin)
}

/// What holds while the backfill stands at slot `s` of day `d` with grid
/// `g`, having begun with `g0`.
pub open spec fn backfill_progress(n: nat, g0: Grid, g: Grid, d: int, s: int) -> bool {
    &&& well_shaped(g0)
    &&& well_shaped(g)
    &&& extends(g0, g)
    &&& filled_to_two(g0, g)
    &&& staffed_before(n, g, d, s)
    &&& newcomers_eligible(n, g0, g)
    &&& leads_back(n, g0, g, d, s)
}

/// What the backfill leaves behind, whatever the draws were.
///
/// Entries were only added at the ends of slots. A slot that held two or
/// more is untouched, and no slot was filled beyond two. A slot holds fewer
/// than two only where nobody is eligible on its day any more. Whoever was
/// added had fewer than five days and was free that day. And the grid is
/// one that the walk over the slots can end with.
pub open spec fn backfill_result(n: nat, before: Grid, after: Grid) -> bool {
    &&& well_shaped(after)
    &&& extends(before, after)
    &&& filled_to_two(before, after)
    &&& staffed_before(n, after, 7, 0)
    &&& newcomers_eligible(n, before, after)
    &&& backfill_from(n, before, 0, 0, after)
}

/// The backfill begins in progress.
pub proof fn lemma_progress_start(n: nat, g0: Grid)
    requires
        well_shaped(g0),
    ensures
        backfill_progress(n, g0, g0, 0, 0),
{
    lemma_extends_chain(g0, g0, g0);
}

/// Nobody becomes eligible by a grid growing.
pub proof fn lemma_eligibility_shrinks(n: nat, earlier: Grid, later: Grid, d: int)
    requires
        well_shaped(earlier),
        well_shaped(later),
        extends(earlier, later),
        0 <= d < 7,
    ensures
        forall|x: usize| #[trigger] eligible(n, later, x, d) ==> eligible(n, earlier, x, d),
        someone_eligible(n, later, d) ==> someone_eligible(n, earlier, d),
{
    assert forall|x: usize| #[trigger] eligible(n, later, x, d) implies eligible(
        n,
        earlier,
        x,
        d,
    ) by {
        lemma_extends_keeps(earlier, later, x);
    }
    if someone_eligible(n, later, d) {
        let x = choose|x: usize| eligible(n, later, x, d);
        assert(eligible(n, earlier, x, d));
    }
}

/// Progress is kept when an eligible employee joins a slot that holds fewer
/// than two.
pub proof fn lemma_progress_place(n: nat, g0: Grid, g: Grid, d: int, s: int, e: usize)
    requires
        backfill_progress(n, g0, g, d, s),
        0 <= d < 7,
        0 <= s < 3,
        g[d][s].len() < 2,
        eligible(n, g, e, d),
    ensures
        backfill_progress(n, g0, placed(g, d, s, e), d, s),
{
    let h = placed(g, d, s, e);
    lemma_placed(g, d, s, e);
    lemma_extends_chain(g0, g, h);
    assert(g0[d][s].is_prefix_of(g[d][s]));
    assert(filled_to_two(g0, h)) by {
        assert forall|d2: int, s2: int| 0 <= d2 < 7 && 0 <= s2 < 3 implies {
            &&& g0[d2][s2].len() >= 2 ==> #[trigger] h[d2][s2] == g0[d2][s2]
            &&& g0[d2][s2].len() < 2 ==> h[d2][s2].len() <= 2
        } by {
            if d2 == d && s2 == s {
            } else {
                assert(h[d2][s2] == g[d2][s2]);
                assert(g0[d2][s2].len() >= 2 ==> g[d2][s2] == g0[d2][s2]);
            }
        }
    }
    assert(staffed_before(n, h, d, s)) by {
        assert forall|d2: int, s2: int|
            0 <= d2 < 7 && 0 <= s2 < 3 && comes_before(d2, s2, d, s) implies (
        #[trigger] h[d2][s2]).len() >= 2 || !someone_eligible(n, h, d2) by {
            assert(h[d2][s2] == g[d2][s2]);
            assert(g[d2][s2].len() >= 2 || !someone_eligible(n, g, d2));
            lemma_eligibility_shrinks(n, g, h, d2);
        }
    }
    assert(newcomers_eligible(n, g0, h)) by {
        assert forall|d2: int, s2: int, k: int|
            0 <= d2 < 7 && 0 <= s2 < 3 && g0[d2][s2].len() <= k < h[d2][s2].len() implies eligible(
            n,
            g0,
            #[trigger] h[d2][s2][k],
            d2,
        ) by {
            if d2 == d && s2 == s {
                if k < g[d][s].len() {
                    assert(h[d][s][k] == g[d][s][k]);
                    assert(eligible(n, g0, g[d][s][k], d));
                } else {
                    assert(h[d][s][k] == e);
                    lemma_eligibility_shrinks(n, g0, g, d);
                }
            } else {
                assert(h[d2][s2] == g[d2][s2]);
                assert(eligible(n, g0, g[d2][s2][k], d2));
            }
        }
    }
    assert(leads_back(n, g0, h, d, s)) by {
        assert forall|fin: Grid| #[trigger] backfill_from(n, h, d, s, fin) implies backfill_from(
            n,
            g0,
            0,
            0,
            fin,
        ) by {
            assert(someone_eligible(n, g, d));
            assert(backfill_from(n, g, d, s, fin));
        }
    }
}

/// Progress moves on to the next slot once a slot holds two or nobody is
/// eligible that day.
pub proof fn lemma_progress_next_slot(n: nat, g0: Grid, g: Grid, d: int, s: int)
    requires
        backfill_progress(n, g0, g, d, s),
        0 <= d < 7,
        0 <= s < 3,
        g[d][s].len() >= 2 || !someone_eligible(n, g, d),
    ensures
        backfill_progress(n, g0, g, d, s + 1),
{
    assert(leads_back(n, g0, g, d, s + 1)) by {
        assert forall|fin: Grid| #[trigger]
            backfill_from(n, g, d, s + 1, fin) implies backfill_from(n, g0, 0, 0, fin) by {
            assert(backfill_from(n, g, d, s, fin));
        }
    }
}

/// Progress moves on to the next day after the last slot of a day.
pub proof fn lemma_progress_next_day(n: nat, g0: Grid, g: Grid, d: int)
    requires
        backfill_progress(n, g0, g, d, 3),
        0 <= d < 7,
    ensures
        backfill_progress(n, g0, g, d + 1, 0),
{
    assert(leads_back(n, g0, g, d + 1, 0)) by {
        assert forall|fin: Grid| #[trigger]
            backfill_from(n, g, d + 1, 0, fin) implies backfill_from(n, g0, 0, 0, fin) by {
            assert(backfill_from(n, g, d, 3, fin));
        }
    }
}

/// Progress past the last day is the result.
pub proof fn lemma_progress_end(n: nat, g0: Grid, g: Grid)
    requires
        backfill_progress(n, g0, g, 7, 0),
    ensures
        backfill_result(n, g0, g),
{
    assert(backfill_from(n, g, 7, 0, g));
}

/// The backfill leaves a week alone in which every slot holds two or more
/// or has nobody eligible on its day: from any point of the walk there is
/// one grid it can end with, the one it stands at.
pub proof fn law_staffed_week_is_left_alone(n: nat, g: Grid, d: int, s: int, fin: Grid)
    requires
        well_shaped(g),
        0 <= d,
        0 <= s,
        staffed_before(n, g, 7, 0),
        backfill_from(n, g, d, s, fin),
    ensures
        fin == g,
    decreases 7 - d, 3 - s,
{
    if d >= 7 {
    } else if s >= 3 {
        law_staffed_week_is_left_alone(n, g, d + 1, 0, fin);
    } else {
        assert(comes_before(d, s, 7, 0));
        assert(g[d][s].len() >= 2 || !someone_eligible(n, g, d));
        law_staffed_week_is_left_alone(n, g, d, s + 1, fin);
    }
}

/// The number of employees in a slot.
fn slot_len(grid: &WeekGrid, day: usize, slot: usize) -> (len: usize)
    requires
        well_shaped(grid.deep_view()),
        day < 7,
        slot < 3,
    ensures
        len == grid.deep_view()[day as int][slot as int].len(),
{
    proof {
        lemma_grid_view(grid);
        assert(grid.deep_view()[day as int].len() == 3);
    }
    grid[day][slot].len()
}

/// The backfill pass. For each day in order and each of its slots in order:
/// while the slot holds fewer than two employees, the pool of those with
/// fewer than five days who are free that day is put together anew; if it is
/// empty the slot is left as it is, else the pool is shuffled and its first
/// member joins the slot.
///
/// Which members are drawn is up to the random source. The contract states
/// what holds of every draw.
pub fn pass_backfill(roster: &mut Vec<Employee>, grid: &mut WeekGrid, source: &mut RandomSource)
    requires
        consistent(old(roster)@, old(grid).deep_view()),
    ensures
        consistent(final(roster)@, final(grid).deep_view()),
        same_people(old(roster)@, final(roster)@),
        backfill_result(old(roster)@.len(), old(grid).deep_view(), final(grid).deep_view()),
{
    let ghost r0 = roster@;
    let ghost g0 = grid.deep_view();
    let ghost n = roster@.len();
    proof {
        lemma_progress_start(n, g0);
    }
    let mut day: usize = 0;
    while day < 7
        invariant
            day <= 7,
            roster@.len() == n,
            same_people(r0, roster@),
            consistent(roster@, grid.deep_view()),
            backfill_progress(n, g0, grid.deep_view(), day as int, 0),
        decreases 7 - day,
    {
        let mut s: usize = 0;
        while s < 3
            invariant
                s <= 3,
                day < 7,
                roster@.len() == n,
                same_people(r0, roster@),
                consistent(roster@, grid.deep_view()),
                backfill_progress(n, g0, grid.deep_view(), day as int, s as int),
            decreases 3 - s,
        {
            while slot_len(grid, day, s) < 2
                invariant
                    s < 3,
                    day < 7,
                    roster@.len() == n,
                    same_people(r0, roster@),
                    consistent(roster@, grid.deep_view()),
                    backfill_progress(n, g0, grid.deep_view(), day as int, s as int),
                ensures
                    grid.deep_view()[day as int][s as int].len() >= 2 || !someone_eligible(
                        n,
                        grid.deep_view(),
                        day as int,
                    ),
                decreases 2 - grid.deep_view()[day as int][s as int].len(),
            {
                let ghost g = grid.deep_view();
                let mut pool = candidate_pool(roster, grid, day);
                if pool.len() == 0 {
                    break;
                }
                let ghost listed = pool@;
                source.shuffle(&mut pool);
                let pick = pool[0];
                proof {
                    assert(pool@.contains(pick));
                    assert(listed.contains(pick));
                    lemma_progress_place(n, g0, g, day as int, s as int, pick);
                    lemma_placed(g, day as int, s as int, pick);
                }
                assign(roster, grid, day, s, pick);
            }
            proof {
                lemma_progress_next_slot(n, g0, grid.deep_view(), day as int, s as int);
            }
            s = s + 1;
        }
        proof {
            lemma_progress_next_day(n, g0, grid.deep_view(), day as int);
        }
        day = day + 1;
    }
    proof {
        lemma_progress_end(n, g0, grid.deep_view());
    }
}

} // verus!
