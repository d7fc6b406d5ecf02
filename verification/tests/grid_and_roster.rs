use shift_scheduler::employee::Employee;
use shift_scheduler::grid::{is_assigned_this_day, new_week, slot_contains, WeekGrid};
use shift_scheduler::random::RandomSource;
use shift_scheduler::roster::{assign, candidate_pool};
use shift_scheduler::schedule::{placed_employees, slot_names};
use shift_scheduler::validate::is_consistent;

fn people(names: &[&str]) -> Vec<Employee> {
    names.iter().map(|n| Employee::new(n)).collect()
}

#[test]
fn a_new_week_is_empty() {
    let w = new_week();
    assert_eq!(w.len(), 7);
    for d in 0..7 {
        assert_eq!(w[d].len(), 3);
        for s in 0..3 {
            assert!(w[d][s].is_empty());
        }
    }
}

#[test]
fn a_slot_knows_its_members() {
    assert!(slot_contains(&vec![4, 2, 9], 2));
    assert!(slot_contains(&vec![4, 2, 9], 9));
    assert!(!slot_contains(&vec![4, 2, 9], 3));
    assert!(!slot_contains(&Vec::new(), 0));
}

#[test]
fn assignment_is_looked_up_across_the_slots_of_one_day() {
    let mut w: WeekGrid = new_week();
    w[2][0].push(5);
    w[2][2].push(1);
    w[3][1].push(7);
    assert!(is_assigned_this_day(5, &w, 2));
    assert!(is_assigned_this_day(1, &w, 2));
    assert!(!is_assigned_this_day(7, &w, 2));
    assert!(is_assigned_this_day(7, &w, 3));
    assert!(!is_assigned_this_day(5, &w, 3));
    assert!(!is_assigned_this_day(5, &w, 0));
}

#[test]
fn assignment_is_looked_up_in_a_day_of_any_width() {
    let w: Vec<Vec<Vec<usize>>> = vec![vec![], vec![vec![1], vec![], vec![], vec![8]]];
    assert!(!is_assigned_this_day(1, &w, 0));
    assert!(is_assigned_this_day(1, &w, 1));
    assert!(is_assigned_this_day(8, &w, 1));
    assert!(!is_assigned_this_day(2, &w, 1));
}

#[test]
fn assigning_places_at_the_end_and_counts_the_day() {
    let mut roster = people(&["a", "b", "c"]);
    let mut w = new_week();
    assign(&mut roster, &mut w, 1, 2, 1);
    assign(&mut roster, &mut w, 1, 2, 0);
    assign(&mut roster, &mut w, 4, 0, 1);
    assert_eq!(w[1][2], vec![1, 0]);
    assert_eq!(w[4][0], vec![1]);
    assert_eq!(roster[0].assigned_days, 1);
    assert_eq!(roster[1].assigned_days, 2);
    assert_eq!(roster[2].assigned_days, 0);
    let mut total: usize = 0;
    for d in 0..7 {
        for s in 0..3 {
            total += w[d][s].len();
        }
    }
    assert_eq!(total, 3);
}

#[test]
fn the_pool_lists_the_free_and_uncapped_in_roster_order() {
    let mut roster = people(&["a", "b", "c", "d"]);
    let mut w = new_week();
    assert_eq!(candidate_pool(&roster, &w, 0), vec![0, 1, 2, 3]);
    assign(&mut roster, &mut w, 0, 1, 2);
    assert_eq!(candidate_pool(&roster, &w, 0), vec![0, 1, 3]);
    assert_eq!(candidate_pool(&roster, &w, 1), vec![0, 1, 2, 3]);
    for d in 1..6 {
        assign(&mut roster, &mut w, d, 0, 0);
    }
    assert_eq!(roster[0].assigned_days, 5);
    assert_eq!(candidate_pool(&roster, &w, 0), vec![1, 3]);
    assert_eq!(candidate_pool(&roster, &w, 6), vec![1, 2, 3]);
}

#[test]
fn the_pool_of_an_empty_roster_is_empty() {
    let roster: Vec<Employee> = Vec::new();
    let w = new_week();
    for d in 0..7 {
        assert!(candidate_pool(&roster, &w, d).is_empty());
    }
}

#[test]
fn a_shuffle_keeps_the_members() {
    let mut thread = RandomSource::thread();
    let mut seeded = RandomSource::seeded(11);
    for _ in 0..20 {
        let mut pool: Vec<usize> = vec![3, 1, 4, 1, 5, 9, 2, 6];
        thread.shuffle(&mut pool);
        pool.sort();
        assert_eq!(pool, vec![1, 1, 2, 3, 4, 5, 6, 9]);
        let mut pool: Vec<usize> = vec![3, 1, 4, 1, 5, 9, 2, 6];
        seeded.shuffle(&mut pool);
        pool.sort();
        assert_eq!(pool, vec![1, 1, 2, 3, 4, 5, 6, 9]);
    }
}

#[test]
fn a_shuffle_of_nothing_or_one_is_that() {
    let mut source = RandomSource::seeded(3);
    let mut none: Vec<usize> = Vec::new();
    source.shuffle(&mut none);
    assert!(none.is_empty());
    let mut one: Vec<usize> = vec![7];
    source.shuffle(&mut one);
    assert_eq!(one, vec![7]);
}

#[test]
fn the_thread_source_changes_the_order() {
    let mut source = RandomSource::thread();
    let start: Vec<usize> = (0..32).collect();
    let mut moved = false;
    for _ in 0..10 {
        let mut pool = start.clone();
        source.shuffle(&mut pool);
        if pool != start {
            moved = true;
        }
    }
    assert!(moved);
}

#[test]
fn a_seeded_source_changes_the_order() {
    let start: Vec<usize> = (0..32).collect();
    let mut moved = false;
    for seed in 0..10 {
        let mut source = RandomSource::seeded(seed);
        let mut pool = start.clone();
        source.shuffle(&mut pool);
        if pool != start {
            moved = true;
        }
    }
    assert!(moved);
}

#[test]
fn a_seeded_source_repeats_itself() {
    let start: Vec<usize> = (0..32).collect();
    let mut first = start.clone();
    let mut second = start.clone();
    RandomSource::seeded(2024).shuffle(&mut first);
    RandomSource::seeded(2024).shuffle(&mut second);
    assert_eq!(first, second);
}

#[test]
fn slot_names_come_in_order_of_placement() {
    let mut roster = people(&["Ann", "Ben", "Cy"]);
    let mut w = new_week();
    assign(&mut roster, &mut w, 3, 1, 2);
    assign(&mut roster, &mut w, 3, 1, 0);
    assert_eq!(slot_names(&roster, &w, 3, 1), vec!["Cy".to_string(), "Ann".to_string()]);
    assert!(slot_names(&roster, &w, 3, 0).is_empty());
    assert!(slot_names(&roster, &w, 0, 1).is_empty());
}

#[test]
fn same_names_are_listed_each_time() {
    let mut roster = people(&["Ann", "Ann"]);
    let mut w = new_week();
    assign(&mut roster, &mut w, 0, 0, 1);
    assign(&mut roster, &mut w, 0, 0, 0);
    assert_eq!(slot_names(&roster, &w, 0, 0), vec!["Ann".to_string(), "Ann".to_string()]);
}

#[test]
fn placed_employees_are_those_with_a_slot() {
    let mut roster = people(&["a", "b", "c", "d"]);
    let mut w = new_week();
    assert!(placed_employees(&roster, &w).is_empty());
    assign(&mut roster, &mut w, 6, 2, 3);
    assign(&mut roster, &mut w, 0, 0, 1);
    assign(&mut roster, &mut w, 1, 0, 1);
    assert_eq!(placed_employees(&roster, &w), vec![1, 3]);
    assert_eq!(roster[1].assigned_days, 2);
    assert_eq!(roster[3].assigned_days, 1);
}

#[test]
fn a_fresh_roster_and_an_empty_week_are_consistent() {
    let roster = people(&["a", "b"]);
    assert!(is_consistent(&roster, &new_week()));
    assert!(is_consistent(&Vec::new(), &new_week()));
}

#[test]
fn a_week_built_by_assigning_is_consistent() {
    let mut roster = people(&["a", "b", "c"]);
    let mut w = new_week();
    assign(&mut roster, &mut w, 0, 0, 2);
    assign(&mut roster, &mut w, 0, 1, 0);
    assign(&mut roster, &mut w, 5, 2, 2);
    assert!(is_consistent(&roster, &w));
}

#[test]
fn a_grid_of_the_wrong_shape_is_not_consistent() {
    let roster = people(&["a"]);
    let mut short = new_week();
    short.pop();
    assert!(!is_consistent(&roster, &short));
    let mut wide = new_week();
    wide[3].push(Vec::new());
    assert!(!is_consistent(&roster, &wide));
    let mut narrow = new_week();
    narrow[6].pop();
    assert!(!is_consistent(&roster, &narrow));
    assert!(!is_consistent(&roster, &Vec::new()));
}

#[test]
fn a_stranger_in_the_grid_is_not_consistent() {
    let roster = people(&["a", "b"]);
    let mut w = new_week();
    w[1][1].push(2);
    assert!(!is_consistent(&roster, &w));
}

#[test]
fn a_counter_that_disagrees_is_not_consistent() {
    let mut roster = people(&["a", "b"]);
    let mut w = new_week();
    w[1][1].push(1);
    assert!(!is_consistent(&roster, &w));
    roster[1].assigned_days = 1;
    assert!(is_consistent(&roster, &w));
    roster[0].assigned_days = 1;
    assert!(!is_consistent(&roster, &w));
}

#[test]
fn a_repeat_in_a_slot_is_not_consistent() {
    let mut roster = people(&["a"]);
    let mut w = new_week();
    w[2][0].push(0);
    w[2][0].push(0);
    roster[0].assigned_days = 1;
    assert!(!is_consistent(&roster, &w));
    roster[0].assigned_days = 2;
    assert!(!is_consistent(&roster, &w));
}

#[test]
fn two_slots_on_one_day_are_not_consistent() {
    let mut roster = people(&["a"]);
    let mut w = new_week();
    w[2][0].push(0);
    w[2][2].push(0);
    roster[0].assigned_days = 2;
    assert!(!is_consistent(&roster, &w));
}

#[test]
fn more_than_five_days_are_not_consistent() {
    let mut roster = people(&["a"]);
    let mut w = new_week();
    for d in 0..5 {
        w[d][1].push(0);
    }
    roster[0].assigned_days = 5;
    assert!(is_consistent(&roster, &w));
    w[5][1].push(0);
    roster[0].assigned_days = 6;
    assert!(!is_consistent(&roster, &w));
}
