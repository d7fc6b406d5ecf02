//! Laws of the preference and fallback passes: what they leave alone, and
//! why the fallback pass finds nothing to do after the preference pass.

use vstd::prelude::*;
use crate::employee::Employee;
use crate::engine::{
    after_fallback, after_preferences, place_days, place_step, place_upto, target_slot,
    wants_place,
};
use crate::grid::{
    assigned_on, extends, in_slot, lemma_assigned_on, lemma_extends_chain, lemma_extends_keeps,
    lemma_placed, occupied_slots, well_shaped, Grid,
};
use crate::roster::{consistent, eligible, same_people};
use crate::shift::{shift_index, Shift};

verus! {

/// Every wish is granted: whoever wishes for a shift on a day stands in
/// that shift's slot on that day.
pub open spec fn preferences_met(roster: Seq<Employee>, g: Grid) -> bool {
    forall|e: usize, d: int|
        e < roster.len() && 0 <= d < 7 && roster[e as int].preferred_per_day@[d]
            != Shift::NoPreference ==> #[trigger] in_slot(
            g,
            d,
            shift_index(roster[e as int].preferred_per_day@[d]),
            e,
        )
}

/// A pass has nothing left to do for employee `e`: the employee has five
/// days, or holds a shift on every day they wish to work.
pub open spec fn settled(g: Grid, emp: Employee, e: usize) -> bool {
    occupied_slots(g, e) >= 5 || days_covered(g, emp, e, 7)
}

/// Employee `e` holds a shift on each of the first `n` days for which they
/// state a wish.
pub open spec fn days_covered(g: Grid, emp: Employee, e: usize, n: int) -> bool {
    forall|d: int|
        0 <= d < n && emp.preferred_per_day@[d] != Shift::NoPreference ==> #[trigger] assigned_on(
            g,
            e,
            d,
        )
}

/// The slot that a pass places into is one of the three of the day.
pub proof fn lemma_target_in_day(emp: Employee, d: int, by_rank: bool)
    requires
        emp.preferred_per_day@[d] != Shift::NoPreference,
    ensures
        0 <= target_slot(emp, d, by_rank) < 3,
{
}

/// A pass places nothing for an employee who is settled.
pub proof fn lemma_days_idle(g: Grid, emp: Employee, e: usize, by_rank: bool, n: nat)
    requires
        n <= 7,
        settled(g, emp, e),
    ensures
        place_days(g, emp, e, by_rank, n) == g,
    decreases n,
{
    if n > 0 {
        lemma_days_idle(g, emp, e, by_rank, (n - 1) as nat);
        let d = n - 1;
        if emp.preferred_per_day@[d] != Shift::NoPreference && occupied_slots(g, e) < 5 {
            assert(assigned_on(g, e, d));
        }
        assert(!wants_place(g, e, d, emp.preferred_per_day@[d]));
    }
}

/// A pass places nothing at all where every employee is settled.
pub proof fn lemma_walk_idle(g: Grid, roster: Seq<Employee>, by_rank: bool, m: nat)
    requires
        m <= roster.len(),
        roster.len() <= usize::MAX,
        forall|e: usize| e < roster.len() ==> settled(g, #[trigger] roster[e as int], e),
    ensures
        place_upto(g, roster, by_rank, m) == g,
    decreases m,
{
    if m > 0 {
        lemma_walk_idle(g, roster, by_rank, (m - 1) as nat);
        let e = (m - 1) as usize;
        assert(settled(g, roster[e as int], e));
        lemma_days_idle(g, roster[m - 1], e, by_rank, 7);
    }
}

/// What a pass does for one employee over the first `n` days: the grid
/// keeps its shape and only grows, and the employee ends with five days or
/// with a shift on each of those days for which they state a wish.
pub proof fn lemma_days_grow(g: Grid, emp: Employee, e: usize, by_rank: bool, n: nat)
    requires
        well_shaped(g),
        n <= 7,
    ensures
        well_shaped(place_days(g, emp, e, by_rank, n)),
        extends(g, place_days(g, emp, e, by_rank, n)),
        occupied_slots(place_days(g, emp, e, by_rank, n), e) >= 5 || days_covered(
            place_days(g, emp, e, by_rank, n),
            emp,
            e,
            n as int,
        ),
    decreases n,
{
    if n == 0 {
        lemma_extends_chain(g, g, g);
    } else {
        lemma_days_grow(g, emp, e, by_rank, (n - 1) as nat);
        let before = place_days(g, emp, e, by_rank, (n - 1) as nat);
        let d = n - 1;
        let after = place_step(before, emp, e, d, by_rank);
        assert(after == place_days(g, emp, e, by_rank, n));
        if wants_place(before, e, d, emp.preferred_per_day@[d]) {
            let t = target_slot(emp, d, by_rank);
            lemma_target_in_day(emp, d, by_rank);
            lemma_placed(before, d, t, e);
            lemma_extends_chain(g, before, after);
            lemma_extends_keeps(before, after, e);
            assert(in_slot(after, d, t, e));
            lemma_assigned_on(after, e, d);
            assert forall|d2: int|
                0 <= d2 < n && emp.preferred_per_day@[d2]
                    != Shift::NoPreference implies #[trigger] assigned_on(after, e, d2) by {
                if d2 < d {
                    assert(assigned_on(before, e, d2));
                }
            }
        } else {
            if occupied_slots(before, e) < 5 {
                assert forall|d2: int|
                    0 <= d2 < n && emp.preferred_per_day@[d2]
                        != Shift::NoPreference implies #[trigger] assigned_on(after, e, d2) by {
                    if d2 < d {
                        assert(assigned_on(before, e, d2));
                    }
                }
            }
        }
    }
}

/// A settled employee stays settled while the grid only grows.
pub proof fn lemma_settled_stays(earlier: Grid, later: Grid, emp: Employee, e: usize)
    requires
        well_shaped(earlier),
        well_shaped(later),
        extends(earlier, later),
        settled(earlier, emp, e),
    ensures
        settled(later, emp, e),
{
    lemma_extends_keeps(earlier, later, e);
    if occupied_slots(earlier, e) < 5 {
        assert forall|d: int|
            0 <= d < 7 && emp.preferred_per_day@[d]
                != Shift::NoPreference implies #[trigger] assigned_on(later, e, d) by {
            assert(assigned_on(earlier, e, d));
        }
    }
}

/// What a pass does for the first `m` employees: the grid keeps its shape
/// and only grows, and each of them ends settled.
pub proof fn lemma_walk_settles(g: Grid, roster: Seq<Employee>, by_rank: bool, m: nat)
    requires
        well_shaped(g),
        m <= roster.len(),
        roster.len() <= usize::MAX,
    ensures
        well_shaped(place_upto(g, roster, by_rank, m)),
        extends(g, place_upto(g, roster, by_rank, m)),
        forall|e: usize|
            e < m ==> settled(place_upto(g, roster, by_rank, m), #[trigger] roster[e as int], e),
    decreases m,
{
    if m == 0 {
        lemma_extends_chain(g, g, g);
    } else {
        lemma_walk_settles(g, roster, by_rank, (m - 1) as nat);
        let before = place_upto(g, roster, by_rank, (m - 1) as nat);
        let last = (m - 1) as usize;
        let after = place_days(before, roster[m - 1], last, by_rank, 7);
        assert(after == place_upto(g, roster, by_rank, m));
        lemma_days_grow(before, roster[m - 1], last, by_rank, 7);
        lemma_extends_chain(g, before, after);
        assert forall|e: usize| e < m implies settled(after, #[trigger] roster[e as int], e) by {
            if e < m - 1 {
                lemma_settled_stays(before, after, roster[e as int], e);
            }
        }
    }
}

/// Whoever a pass added to a slot was asked for there: an employee of the
/// roster who wishes for a shift that day, had fewer than five days and was
/// free that day before the pass, and whose slot by the rule of the pass is
/// this one.
pub open spec fn placed_as_asked(
    roster: Seq<Employee>,
    before: Grid,
    after: Grid,
    by_rank: bool,
) -> bool {
    forall|d: int, s: int, k: int|
        0 <= d < 7 && 0 <= s < 3 && before[d][s].len() <= k < after[d][s].len() ==> {
            &&& eligible(roster.len(), before, #[trigger] after[d][s][k], d)
            &&& roster[after[d][s][k] as int].preferred_per_day@[d] != Shift::NoPreference
            &&& target_slot(roster[after[d][s][k] as int], d, by_rank) == s
        }
}

/// One step of a pass adds nobody who was not asked for.
pub proof fn lemma_step_as_asked(
    roster: Seq<Employee>,
    g0: Grid,
    g: Grid,
    e: usize,
    d: int,
    by_rank: bool,
)
    requires
        well_shaped(g0),
        well_shaped(g),
        extends(g0, g),
        placed_as_asked(roster, g0, g, by_rank),
        e < roster.len(),
        0 <= d < 7,
    ensures
        well_shaped(place_step(g, roster[e as int], e, d, by_rank)),
        extends(g0, place_step(g, roster[e as int], e, d, by_rank)),
        placed_as_asked(roster, g0, place_step(g, roster[e as int], e, d, by_rank), by_rank),
{
    let emp = roster[e as int];
    let h = place_step(g, emp, e, d, by_rank);
    if wants_place(g, e, d, emp.preferred_per_day@[d]) {
        let t = target_slot(emp, d, by_rank);
        lemma_target_in_day(emp, d, by_rank);
        lemma_placed(g, d, t, e);
        lemma_extends_chain(g0, g, h);
        lemma_extends_keeps(g0, g, e);
        assert(g0[d][t].is_prefix_of(g[d][t]));
        assert forall|d2: int, s2: int, k: int|
            0 <= d2 < 7 && 0 <= s2 < 3 && g0[d2][s2].len() <= k < h[d2][s2].len() implies {
            &&& eligible(roster.len(), g0, #[trigger] h[d2][s2][k], d2)
            &&& roster[h[d2][s2][k] as int].preferred_per_day@[d2] != Shift::NoPreference
            &&& target_slot(roster[h[d2][s2][k] as int], d2, by_rank) == s2
        } by {
            if d2 == d && s2 == t {
                if k < g[d][t].len() {
                    assert(h[d][t][k] == g[d][t][k]);
                    assert(eligible(roster.len(), g0, g[d][t][k], d));
                } else {
                    assert(h[d][t][k] == e);
                }
            } else {
                assert(h[d2][s2] == g[d2][s2]);
                assert(eligible(roster.len(), g0, g[d2][s2][k], d2));
            }
        }
    }
}

/// The days of one employee add nobody who was not asked for.
pub proof fn lemma_days_as_asked(
    roster: Seq<Employee>,
    g0: Grid,
    g: Grid,
    e: usize,
    by_rank: bool,
    n: nat,
)
    requires
        well_shaped(g0),
        well_shaped(g),
        extends(g0, g),
        placed_as_asked(roster, g0, g, by_rank),
        e < roster.len(),
        n <= 7,
    ensures
        well_shaped(place_days(g, roster[e as int], e, by_rank, n)),
        extends(g0, place_days(g, roster[e as int], e, by_rank, n)),
        placed_as_asked(roster, g0, place_days(g, roster[e as int], e, by_rank, n), by_rank),
    decreases n,
{
    if n > 0 {
        lemma_days_as_asked(roster, g0, g, e, by_rank, (n - 1) as nat);
        lemma_step_as_asked(
            roster,
            g0,
            place_days(g, roster[e as int], e, by_rank, (n - 1) as nat),
            e,
            n - 1,
            by_rank,
        );
    }
}

/// What a pass leaves behind, stated without the walk: the grid only grew
/// at the ends of its slots; whoever was added wished for a shift that day,
/// had fewer than five days and was free that day before the pass, and
/// stands in the slot that the rule of the pass gives them; and everybody
/// ends with five days or with a shift on every day they wish to work.
pub proof fn law_pass_places_as_asked_and_settles(
    roster: Seq<Employee>,
    g: Grid,
    by_rank: bool,
    m: nat,
)
    requires
        well_shaped(g),
        m <= roster.len(),
        roster.len() <= usize::MAX,
    ensures
        well_shaped(place_upto(g, roster, by_rank, m)),
        extends(g, place_upto(g, roster, by_rank, m)),
        placed_as_asked(roster, g, place_upto(g, roster, by_rank, m), by_rank),
        forall|e: usize|
            e < m ==> settled(place_upto(g, roster, by_rank, m), #[trigger] roster[e as int], e),
    decreases m,
{
    lemma_walk_settles(g, roster, by_rank, m);
    if m == 0 {
    } else {
        law_pass_places_as_asked_and_settles(roster, g, by_rank, (m - 1) as nat);
        lemma_days_as_asked(
            roster,
            g,
            place_upto(g, roster, by_rank, (m - 1) as nat),
            (m - 1) as usize,
            by_rank,
            7,
        );
    }
}

/// Both passes leave a grid alone in which every wish is already granted:
/// running the preference pass and then the fallback pass on it changes
/// nothing.
pub proof fn law_granted_wishes_are_left_alone(roster: Seq<Employee>, g: Grid)
    requires
        consistent(roster, g),
        roster.len() <= usize::MAX,
        preferences_met(roster, g),
    ensures
        after_preferences(roster, g) == g,
        after_fallback(roster, after_preferences(roster, g)) == g,
{
    assert forall|e: usize| e < roster.len() implies settled(g, #[trigger] roster[e as int], e) by {
        let emp = roster[e as int];
        assert forall|d: int|
            0 <= d < 7 && emp.preferred_per_day@[d]
                != Shift::NoPreference implies #[trigger] assigned_on(g, e, d) by {
            assert(in_slot(g, d, shift_index(emp.preferred_per_day@[d]), e));
            lemma_assigned_on(g, e, d);
        }
    }
    lemma_walk_idle(g, roster, false, roster.len());
    lemma_walk_idle(g, roster, true, roster.len());
}

/// After the preference pass the fallback pass finds nothing to do:
/// whoever wished for a shift on a day either got one that day or had
/// reached five days.
pub proof fn law_fallback_is_idle_after_preferences(roster: Seq<Employee>, g: Grid)
    requires
        well_shaped(g),
        roster.len() <= usize::MAX,
    ensures
        after_fallback(roster, after_preferences(roster, g)) == after_preferences(roster, g),
{
    lemma_walk_settles(g, roster, false, roster.len());
    lemma_walk_idle(after_preferences(roster, g), roster, true, roster.len());
}

/// A pass reads the wishes and rankings only: for one employee, two records
/// with the same wishes and ranking give the same grid.
pub proof fn lemma_same_wishes_same_days(
    g: Grid,
    a: Employee,
    b: Employee,
    e: usize,
    by_rank: bool,
    n: nat,
)
    requires
        a.preferred_per_day == b.preferred_per_day,
        a.ranking == b.ranking,
    ensures
        place_days(g, a, e, by_rank, n) == place_days(g, b, e, by_rank, n),
    decreases n,
{
    if n > 0 {
        lemma_same_wishes_same_days(g, a, b, e, by_rank, (n - 1) as nat);
    }
}

/// A pass reads the wishes and rankings only: the assigned-day counters of
/// the roster it is stated over do not matter.
pub proof fn law_passes_read_wishes_only(
    g: Grid,
    a: Seq<Employee>,
    b: Seq<Employee>,
    by_rank: bool,
    m: nat,
)
    requires
        same_people(a, b),
        m <= a.len(),
    ensures
        place_upto(g, a, by_rank, m) == place_upto(g, b, by_rank, m),
    decreases m,
{
    if m > 0 {
        law_passes_read_wishes_only(g, a, b, by_rank, (m - 1) as nat);
        assert(b[m - 1].preferred_per_day == a[m - 1].preferred_per_day);
        lemma_same_wishes_same_days(
            place_upto(g, a, by_rank, (m - 1) as nat),
            a[m - 1],
            b[m - 1],
            (m - 1) as usize,
            by_rank,
            7,
        );
    }
}

} // verus!
