use shift_scheduler::employee::{sample_employees, Employee};
use shift_scheduler::shift::{shift_to_index, Shift};

#[test]
fn labels_are_single_letters() {
    assert_eq!(Shift::Morning.as_str(), "M");
    assert_eq!(Shift::Afternoon.as_str(), "A");
    assert_eq!(Shift::Evening.as_str(), "E");
    assert_eq!(Shift::NoPreference.as_str(), "-");
}

#[test]
fn slot_numbers_follow_the_day() {
    assert_eq!(shift_to_index(Shift::Morning), 0);
    assert_eq!(shift_to_index(Shift::Afternoon), 1);
    assert_eq!(shift_to_index(Shift::Evening), 2);
    assert_eq!(shift_to_index(Shift::NoPreference), 3);
}

#[test]
fn answers_are_read_by_their_first_letter() {
    assert_eq!(Shift::from_answer("m"), Shift::Morning);
    assert_eq!(Shift::from_answer("morning"), Shift::Morning);
    assert_eq!(Shift::from_answer("a"), Shift::Afternoon);
    assert_eq!(Shift::from_answer("evening"), Shift::Evening);
    assert_eq!(Shift::from_answer("midnight"), Shift::Morning);
    assert_eq!(Shift::from_answer(""), Shift::NoPreference);
    assert_eq!(Shift::from_answer("-"), Shift::NoPreference);
    assert_eq!(Shift::from_answer("night"), Shift::NoPreference);
}

#[test]
fn answers_in_upper_case_are_not_normalised_by_from_answer() {
    assert_eq!(Shift::from_answer("M"), Shift::NoPreference);
    assert_eq!(Shift::from_answer(" m"), Shift::NoPreference);
}

#[test]
fn free_text_ignores_case() {
    assert_eq!(Shift::from_str("M"), Shift::Morning);
    assert_eq!(Shift::from_str("Afternoon"), Shift::Afternoon);
    assert_eq!(Shift::from_str("EVENING"), Shift::Evening);
}

#[test]
fn free_text_ignores_surrounding_white_space() {
    assert_eq!(Shift::from_str("  m"), Shift::Morning);
    assert_eq!(Shift::from_str("\tafternoon\n"), Shift::Afternoon);
    assert_eq!(Shift::from_str(" e \r\n"), Shift::Evening);
}

#[test]
fn free_text_ignores_both_at_once() {
    assert_eq!(Shift::from_str("   Morning  "), Shift::Morning);
    assert_eq!(Shift::from_str("\n A"), Shift::Afternoon);
}

#[test]
fn other_free_text_is_no_preference() {
    assert_eq!(Shift::from_str(""), Shift::NoPreference);
    assert_eq!(Shift::from_str("   "), Shift::NoPreference);
    assert_eq!(Shift::from_str("-"), Shift::NoPreference);
    assert_eq!(Shift::from_str("night"), Shift::NoPreference);
    assert_eq!(Shift::from_str("1"), Shift::NoPreference);
}

#[test]
fn a_new_employee_has_no_wishes() {
    let e = Employee::new("Zoe");
    assert_eq!(e.name, "Zoe");
    assert_eq!(e.preferred_per_day, [Shift::NoPreference; 7]);
    assert_eq!(e.ranking, [Shift::Morning, Shift::Afternoon, Shift::Evening]);
    assert_eq!(e.assigned_days, 0);
}

#[test]
fn a_new_employee_may_have_an_empty_name() {
    let e = Employee::new("");
    assert_eq!(e.name, "");
    assert_eq!(e.assigned_days, 0);
}

#[test]
fn a_usable_ranking_is_kept() {
    let mut e = Employee::new("Zoe");
    e.ranking = [Shift::Evening, Shift::Morning, Shift::Afternoon];
    assert_eq!(e.ranking_in_effect(), [Shift::Evening, Shift::Morning, Shift::Afternoon]);
}

#[test]
fn a_ranking_with_a_gap_falls_back_to_the_default() {
    let mut e = Employee::new("Zoe");
    e.ranking = [Shift::Evening, Shift::NoPreference, Shift::Afternoon];
    assert_eq!(e.ranking_in_effect(), [Shift::Morning, Shift::Afternoon, Shift::Evening]);
    e.ranking = [Shift::NoPreference, Shift::NoPreference, Shift::NoPreference];
    assert_eq!(e.ranking_in_effect(), [Shift::Morning, Shift::Afternoon, Shift::Evening]);
}

#[test]
fn a_ranking_with_a_repeat_falls_back_to_the_default() {
    let mut e = Employee::new("Zoe");
    e.ranking = [Shift::Evening, Shift::Evening, Shift::Afternoon];
    assert_eq!(e.ranking_in_effect(), [Shift::Morning, Shift::Afternoon, Shift::Evening]);
    e.ranking = [Shift::Afternoon, Shift::Evening, Shift::Afternoon];
    assert_eq!(e.ranking_in_effect(), [Shift::Morning, Shift::Afternoon, Shift::Evening]);
    e.ranking = [Shift::Morning, Shift::Evening, Shift::Evening];
    assert_eq!(e.ranking_in_effect(), [Shift::Morning, Shift::Afternoon, Shift::Evening]);
}

#[test]
fn a_ranking_of_three_parts_is_taken() {
    let mut e = Employee::new("Zoe");
    let parts = vec![Shift::Evening, Shift::Afternoon, Shift::Morning];
    assert!(e.set_ranking(&parts));
    assert_eq!(e.ranking, [Shift::Evening, Shift::Afternoon, Shift::Morning]);
}

#[test]
fn a_ranking_of_three_parts_is_taken_as_given() {
    let mut e = Employee::new("Zoe");
    let parts = vec![Shift::NoPreference, Shift::Afternoon, Shift::Afternoon];
    assert!(e.set_ranking(&parts));
    assert_eq!(e.ranking, [Shift::NoPreference, Shift::Afternoon, Shift::Afternoon]);
}

#[test]
fn a_ranking_of_other_length_is_not_taken() {
    let mut e = Employee::new("Zoe");
    assert!(!e.set_ranking(&vec![Shift::Evening, Shift::Afternoon]));
    assert_eq!(e.ranking, [Shift::Morning, Shift::Afternoon, Shift::Evening]);
    assert!(!e.set_ranking(&Vec::new()));
    assert!(!e.set_ranking(&vec![Shift::Evening; 4]));
    assert_eq!(e.ranking, [Shift::Morning, Shift::Afternoon, Shift::Evening]);
    assert_eq!(e.name, "Zoe");
    assert_eq!(e.assigned_days, 0);
}

#[test]
fn the_sample_roster_is_as_listed() {
    let m = Shift::Morning;
    let a = Shift::Afternoon;
    let e = Shift::Evening;
    let n = Shift::NoPreference;
    let emps = sample_employees();
    assert_eq!(emps.len(), 8);
    let names = ["Alan", "Bob", "Carol", "Dan", "Eve", "Frank", "Grace", "Heidi"];
    for i in 0..8 {
        assert_eq!(emps[i].name, names[i]);
        assert_eq!(emps[i].assigned_days, 0);
    }
    assert_eq!(emps[0].preferred_per_day, [m; 7]);
    assert_eq!(emps[1].preferred_per_day, [a; 7]);
    assert_eq!(emps[2].preferred_per_day, [e, e, e, e, e, m, m]);
    assert_eq!(emps[3].preferred_per_day, [m, a, e, m, a, e, m]);
    assert_eq!(emps[4].preferred_per_day, [a, a, m, m, e, a, e]);
    assert_eq!(emps[5].preferred_per_day, [m; 7]);
    assert_eq!(emps[6].preferred_per_day, [e; 7]);
    assert_eq!(emps[7].preferred_per_day, [n, a, a, a, n, m, m]);
    assert_eq!(emps[0].ranking, [m, a, e]);
    assert_eq!(emps[1].ranking, [a, e, m]);
    assert_eq!(emps[2].ranking, [e, m, a]);
    for i in 3..8 {
        assert_eq!(emps[i].ranking, [m, a, e]);
    }
}
