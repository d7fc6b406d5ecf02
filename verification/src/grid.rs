//! The week's grid: seven days of three shift slots, each slot holding the
//! roster indices of the employees placed in it, in order of placement.

use vstd::prelude::*;

verus! {

/// The grid as it is held at run time: `grid[day][slot]` lists the roster
/// indices of the employees in that slot.
pub type WeekGrid = Vec<Vec<Vec<usize>>>;

/// The grid as the contracts speak of it.
pub type Grid = Seq<Seq<Seq<usize>>>;

/// Seven days of three slots each.
pub open spec fn well_shaped(g: Grid) -> bool {
    &&& g.len() == 7
    &&& forall|d: int| 0 <= d < 7 ==> (#[trigger] g[d]).len() == 3
}

/// The grid with every slot empty.
pub open spec fn empty_grid() -> Grid {
    Seq::new(7, |d: int| Seq::new(3, |s: int| Seq::<usize>::empty()))
}

/// Whether employee `e` stands in slot `s` of day `d`.
pub open spec fn in_slot(g: Grid, d: int, s: int, e: usize) -> bool {
    g[d][s].contains(e)
}

/// Whether employee `e` stands in any slot of day `d`.
pub open spec fn assigned_on(g: Grid, e: usize, d: int) -> bool {
    exists|s: int| 0 <= s < g[d].len() && #[trigger] in_slot(g, d, s, e)
}

/// One if employee `e` stands in slot `s` of day `d`, else zero.
pub open spec fn slot_count(g: Grid, d: int, s: int, e: usize) -> nat {
    if in_slot(g, d, s, e) {
        1
    } else {
        0
    }
}

/// The number of slots of day `d` that hold employee `e`.
pub open spec fn day_count(g: Grid, d: int, e: usize) -> nat {
    slot_count(g, d, 0, e) + slot_count(g, d, 1, e) + slot_count(g, d, 2, e)
}

/// The number of slots of the whole week that hold employee `e`.
pub open spec fn occupied_slots(g: Grid, e: usize) -> nat {
    day_count(g, 0, e) + day_count(g, 1, e) + day_count(g, 2, e) + day_count(g, 3, e)
        + day_count(g, 4, e) + day_count(g, 5, e) + day_count(g, 6, e)
}

/// The grid after employee `e` has joined the end of slot `s` of day `d`.
pub open spec fn placed(g: Grid, d: int, s: int, e: usize) -> Grid {
    g.update(d, g[d].update(s, g[d][s].push(e)))
}

/// Every slot of `later` starts with what the same slot of `earlier` holds:
/// entries were added at the end, none removed or moved.
pub open spec fn extends(earlier: Grid, later: Grid) -> bool {
    forall|d: int, s: int|
        0 <= d < 7 && 0 <= s < 3 ==> (#[trigger] earlier[d][s]).is_prefix_of(later[d][s])
}

/// In a grid of three slots a day, being assigned on a day is standing in
/// one of the three, and is a day count above zero.
pub proof fn lemma_assigned_on(g: Grid, e: usize, d: int)
    requires
        well_shaped(g),
        0 <= d < 7,
    ensures
        assigned_on(g, e, d) == (in_slot(g, d, 0, e) || in_slot(g, d, 1, e) || in_slot(g, d, 2, e)),
        assigned_on(g, e, d) == (day_count(g, d, e) > 0),
{
    assert(g[d].len() == 3);
    if in_slot(g, d, 0, e) || in_slot(g, d, 1, e) || in_slot(g, d, 2, e) {
        assert(assigned_on(g, e, d));
    }
}

/// What placing an employee changes: one slot gains one entry at its end,
/// and nothing else moves.
pub proof fn lemma_placed(g: Grid, d: int, s: int, e: usize)
    requires
        well_shaped(g),
        0 <= d < 7,
        0 <= s < 3,
    ensures
        well_shaped(placed(g, d, s, e)),
        placed(g, d, s, e)[d][s] == g[d][s].push(e),
        forall|d2: int, s2: int|
            0 <= d2 < 7 && 0 <= s2 < 3 && !(d2 == d && s2 == s) ==> #[trigger] placed(
                g,
                d,
                s,
                e,
            )[d2][s2] == g[d2][s2],
        forall|d2: int, s2: int, x: usize|
            0 <= d2 < 7 && 0 <= s2 < 3 ==> (#[trigger] in_slot(placed(g, d, s, e), d2, s2, x) == (
            in_slot(g, d2, s2, x) || (d2 == d && s2 == s && x == e))),
        extends(g, placed(g, d, s, e)),
{
    let h = placed(g, d, s, e);
    assert(g[d].len() == 3);
    assert(h[d][s] == g[d][s].push(e));
    assert forall|d2: int| 0 <= d2 < 7 implies (#[trigger] h[d2]).len() == 3 by {
        assert(g[d2].len() == 3);
    }
    assert forall|d2: int, s2: int, x: usize| 0 <= d2 < 7 && 0 <= s2 < 3 implies (
    #[trigger] in_slot(h, d2, s2, x) == (in_slot(g, d2, s2, x) || (d2 == d && s2 == s && x
        == e))) by {
        assert(g[d2].len() == 3);
        if d2 == d && s2 == s {
            vstd::seq_lib::lemma_seq_contains_after_push(g[d][s], e, x);
        } else {
            assert(h[d2][s2] == g[d2][s2]);
        }
    }
    assert forall|d2: int, s2: int| 0 <= d2 < 7 && 0 <= s2 < 3 implies (#[trigger] g[d2][s2]).is_prefix_of(
        h[d2][s2],
    ) by {
        assert(g[d2].len() == 3);
        if d2 == d && s2 == s {
            assert(g[d][s] =~= g[d][s].push(e).subrange(0, g[d][s].len() as int));
        } else {
            assert(h[d2][s2] == g[d2][s2]);
            assert(g[d2][s2] =~= g[d2][s2].subrange(0, g[d2][s2].len() as int));
        }
    }
}

/// What placing employee `e` does to the day count of employee `x` on day
/// `d2`: it rises by one on the day of the placement for `e`, if `e` was not
/// in that slot before, and is as it was everywhere else.
pub proof fn lemma_placed_day_count(g: Grid, d: int, s: int, e: usize, d2: int, x: usize)
    requires
        well_shaped(g),
        0 <= d < 7,
        0 <= s < 3,
        0 <= d2 < 7,
    ensures
        day_count(placed(g, d, s, e), d2, x) == day_count(g, d2, x) + if d2 == d && x == e
            && !in_slot(g, d, s, e) {
            1int
        } else {
            0int
        },
{
    lemma_placed(g, d, s, e);
    let h = placed(g, d, s, e);
    assert(in_slot(h, d2, 0, x) == (in_slot(g, d2, 0, x) || (d2 == d && 0 == s && x == e)));
    assert(in_slot(h, d2, 1, x) == (in_slot(g, d2, 1, x) || (d2 == d && 1 == s && x == e)));
    assert(in_slot(h, d2, 2, x) == (in_slot(g, d2, 2, x) || (d2 == d && 2 == s && x == e)));
}

/// Placing employee `e` raises the slot counts of `e` by one where `e` was
/// not in that slot before, and leaves everybody else's as they were.
pub proof fn lemma_placed_counts(g: Grid, d: int, s: int, e: usize, x: usize)
    requires
        well_shaped(g),
        0 <= d < 7,
        0 <= s < 3,
    ensures
        x != e ==> occupied_slots(placed(g, d, s, e), x) == occupied_slots(g, x),
        x != e ==> forall|d2: int|
            0 <= d2 < 7 ==> #[trigger] day_count(placed(g, d, s, e), d2, x) == day_count(g, d2, x),
        forall|d2: int|
            0 <= d2 < 7 && d2 != d ==> #[trigger] day_count(placed(g, d, s, e), d2, e)
                == day_count(g, d2, e),
        !in_slot(g, d, s, e) ==> day_count(placed(g, d, s, e), d, e) == day_count(g, d, e) + 1,
        !in_slot(g, d, s, e) ==> occupied_slots(placed(g, d, s, e), e) == occupied_slots(g, e) + 1,
        in_slot(g, d, s, e) ==> occupied_slots(placed(g, d, s, e), e) == occupied_slots(g, e),
{
    let h = placed(g, d, s, e);
    lemma_placed_day_count(g, d, s, e, 0, x);
    lemma_placed_day_count(g, d, s, e, 1, x);
    lemma_placed_day_count(g, d, s, e, 2, x);
    lemma_placed_day_count(g, d, s, e, 3, x);
    lemma_placed_day_count(g, d, s, e, 4, x);
    lemma_placed_day_count(g, d, s, e, 5, x);
    lemma_placed_day_count(g, d, s, e, 6, x);
    lemma_placed_day_count(g, d, s, e, d, e);
    assert forall|d2: int| 0 <= d2 < 7 && d2 != d implies #[trigger] day_count(h, d2, e)
        == day_count(g, d2, e) by {
        lemma_placed_day_count(g, d, s, e, d2, e);
    }
    if x != e {
        assert forall|d2: int| 0 <= d2 < 7 implies #[trigger] day_count(h, d2, x) == day_count(
            g,
            d2,
            x,
        ) by {
            lemma_placed_day_count(g, d, s, e, d2, x);
        }
    } else {
    }
}

/// Where one grid extends another, whoever stood in a slot still stands
/// there, so no count falls and nobody assigned on a day becomes free.
pub proof fn lemma_extends_keeps(earlier: Grid, later: Grid, x: usize)
    requires
        well_shaped(earlier),
        well_shaped(later),
        extends(earlier, later),
    ensures
        forall|d: int, s: int|
            0 <= d < 7 && 0 <= s < 3 && #[trigger] in_slot(earlier, d, s, x) ==> in_slot(
                later,
                d,
                s,
                x,
            ),
        forall|d: int| 0 <= d < 7 ==> #[trigger] day_count(earlier, d, x) <= day_count(later, d, x),
        forall|d: int| 0 <= d < 7 && #[trigger] assigned_on(earlier, x, d) ==> assigned_on(later, x, d),
        occupied_slots(earlier, x) <= occupied_slots(later, x),
{
    assert forall|d: int, s: int|
        0 <= d < 7 && 0 <= s < 3 && #[trigger] in_slot(earlier, d, s, x) implies in_slot(
        later,
        d,
        s,
        x,
    ) by {
        let a = earlier[d][s];
        let b = later[d][s];
        assert(a.is_prefix_of(b));
        let i = choose|i: int| 0 <= i < a.len() && a[i] == x;
        assert(b.subrange(0, a.len() as int)[i] == x);
        assert(b[i] == x);
    }
    assert forall|d: int| 0 <= d < 7 implies #[trigger] day_count(earlier, d, x) <= day_count(
        later,
        d,
        x,
    ) by {
        assert(in_slot(earlier, d, 0, x) ==> in_slot(later, d, 0, x));
        assert(in_slot(earlier, d, 1, x) ==> in_slot(later, d, 1, x));
        assert(in_slot(earlier, d, 2, x) ==> in_slot(later, d, 2, x));
    }
    assert forall|d: int| 0 <= d < 7 && #[trigger] assigned_on(earlier, x, d) implies assigned_on(
        later,
        x,
        d,
    ) by {
        lemma_assigned_on(earlier, x, d);
        lemma_assigned_on(later, x, d);
        assert(day_count(earlier, d, x) <= day_count(later, d, x));
    }
    assert(day_count(earlier, 0, x) <= day_count(later, 0, x));
    assert(day_count(earlier, 1, x) <= day_count(later, 1, x));
    assert(day_count(earlier, 2, x) <= day_count(later, 2, x));
    assert(day_count(earlier, 3, x) <= day_count(later, 3, x));
    assert(day_count(earlier, 4, x) <= day_count(later, 4, x));
    assert(day_count(earlier, 5, x) <= day_count(later, 5, x));
    assert(day_count(earlier, 6, x) <= day_count(later, 6, x));
}

/// Extension is reflexive and transitive.
pub proof fn lemma_extends_chain(a: Grid, b: Grid, c: Grid)
    requires
        well_shaped(a),
        well_shaped(b),
        well_shaped(c),
        extends(a, b),
        extends(b, c),
    ensures
        extends(a, a),
        extends(a, c),
{
    assert forall|d: int, s: int| 0 <= d < 7 && 0 <= s < 3 implies (#[trigger] a[d][s]).is_prefix_of(
        a[d][s],
    ) by {
        assert(a[d][s] =~= a[d][s].subrange(0, a[d][s].len() as int));
    }
    assert forall|d: int, s: int| 0 <= d < 7 && 0 <= s < 3 implies (#[trigger] a[d][s]).is_prefix_of(
        c[d][s],
    ) by {
        assert(a[d][s].is_prefix_of(b[d][s]));
        assert(b[d][s].is_prefix_of(c[d][s]));
        assert(a[d][s] =~= c[d][s].subrange(0, a[d][s].len() as int));
    }
}

/// How the run-time grid and its model correspond, slot by slot.
pub proof fn lemma_grid_view(w: &WeekGrid)
    ensures
        w.deep_view().len() == w@.len(),
        forall|d: int| 0 <= d < w@.len() ==> (#[trigger] w.deep_view()[d]).len() == w@[d]@.len(),
        forall|d: int, s: int|
            0 <= d < w@.len() && 0 <= s < w@[d]@.len() ==> #[trigger] w.deep_view()[d][s]
                == w@[d]@[s]@,
{
    assert forall|d: int, s: int| 0 <= d < w@.len() && 0 <= s < w@[d]@.len() implies #[trigger] w.deep_view()[d][s]
        == w@[d]@[s]@ by {
        assert(w.deep_view()[d] == w@[d].deep_view());
        assert(w@[d].deep_view()[s] == w@[d]@[s].deep_view());
        assert(w@[d]@[s].deep_view() =~= w@[d]@[s]@);
    }
}

/// A grid for a new week, with every slot empty.
pub fn new_week() -> (w: WeekGrid)
    ensures
        w.deep_view() == empty_grid(),
        well_shaped(w.deep_view()),
{
    let mut w: WeekGrid = Vec::new();
    let mut d: usize = 0;
    while d < 7
        invariant
            d <= 7,
            w@.len() == d,
            forall|i: int| 0 <= i < d ==> (#[trigger] w@[i])@.len() == 3,
            forall|i: int, s: int| 0 <= i < d && 0 <= s < 3 ==> (#[trigger] w@[i]@[s])@.len() == 0,
        decreases 7 - d,
    {
        let mut day: Vec<Vec<usize>> = Vec::new();
        day.push(Vec::new());
        day.push(Vec::new());
        day.push(Vec::new());
        w.push(day);
        d = d + 1;
    }
    proof {
        lemma_grid_view(&w);
        assert(w.deep_view() =~~= empty_grid());
    }
    w
}

/// Whether a slot holds the given employee.
pub fn slot_contains(slot: &Vec<usize>, emp_idx: usize) -> (r: bool)
    ensures
        r == slot@.contains(emp_idx),
{
    let mut k: usize = 0;
    while k < slot.len()
        invariant
            k <= slot@.len(),
            forall|i: int| 0 <= i < k ==> slot@[i] != emp_idx,
        decreases slot@.len() - k,
    {
        if slot[k] == emp_idx {
            return true;
        }
        k = k + 1;
    }
    false
}

/// Whether the employee stands in any slot of the given day.
pub fn is_assigned_this_day(emp_idx: usize, schedule: &Vec<Vec<Vec<usize>>>, day: usize) -> (r:
    bool)
    requires
        day < schedule@.len(),
    ensures
        r == assigned_on(schedule.deep_view(), emp_idx, day as int),
{
    proof {
        lemma_grid_view(schedule);
    }
    let ghost g = schedule.deep_view();
    let slots = &schedule[day];
    let mut s: usize = 0;
    while s < slots.len()
        invariant
            s <= slots@.len(),
            g == schedule.deep_view(),
            day < schedule@.len(),
            *slots == schedule@[day as int],
            g[day as int].len() == slots@.len(),
            forall|i: int| 0 <= i < slots@.len() ==> #[trigger] g[day as int][i] == slots@[i]@,
            forall|i: int| 0 <= i < s ==> !in_slot(g, day as int, i, emp_idx),
        decreases slots@.len() - s,
    {
        if slot_contains(&slots[s], emp_idx) {
            assert(in_slot(g, day as int, s as int, emp_idx));
            return true;
        }
        s = s + 1;
    }
    false
}

} // verus!
