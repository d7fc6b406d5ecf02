//! Employee records: a name, a preferred shift for each day of the week, a
//! fallback ranking of the three shifts and the count of days assigned.

use vstd::prelude::*;
use crate::shift::Shift;

verus! {

/// One member of the roster.
pub struct Employee {
    /// Display name; need not be unique.
    pub name: String,
    /// The shift wished for on each of the seven days.
    pub preferred_per_day: [Shift; 7],
    /// The three shifts in falling order of priority.
    pub ranking: [Shift; 3],
    /// The number of days on which this employee currently holds a shift.
    pub assigned_days: usize,
}

/// The ranking of an employee who states none: morning, afternoon, evening.
pub open spec fn default_ranking() -> Seq<Shift> {
    seq![Shift::Morning, Shift::Afternoon, Shift::Evening]
}

/// A ranking is usable when it names each of the three shifts once.
pub open spec fn ranking_is_valid(r: Seq<Shift>) -> bool {
    &&& r.len() == 3
    &&& r[0] != Shift::NoPreference
    &&& r[1] != Shift::NoPreference
    &&& r[2] != Shift::NoPreference
    &&& r[0] != r[1]
    &&& r[0] != r[2]
    &&& r[1] != r[2]
}

impl Employee {
    /// The ranking that the fallback pass goes by: the employee's own where
    /// it is usable, else the default one.
    pub open spec fn effective_ranking(self) -> Seq<Shift> {
        if ranking_is_valid(self.ranking@) {
            self.ranking@
        } else {
            default_ranking()
        }
    }

    /// A new employee with no preferences, the default ranking and no days
    /// assigned.
    pub fn new(name: &str) -> (e: Employee)
        ensures
            e.name@ == name@,
            e.preferred_per_day@ == Seq::new(7, |d: int| Shift::NoPreference),
            e.ranking@ == default_ranking(),
            e.assigned_days == 0,
    {
        let e = Employee {
            name: name.to_string(),
            preferred_per_day: [Shift::NoPreference; 7],
            ranking: [Shift::Morning, Shift::Afternoon, Shift::Evening],
            assigned_days: 0,
        };
        assert(e.preferred_per_day@ =~= Seq::new(7, |d: int| Shift::NoPreference));
        assert(e.ranking@ =~= default_ranking());
        e
    }

    /// The ranking to go by. A ranking that does not name each of the three
    /// shifts once is replaced by the default one.
    pub fn ranking_in_effect(&self) -> (r: [Shift; 3])
        ensures
            r@ == self.effective_ranking(),
            ranking_is_valid(r@),
    {
        let a = self.ranking[0];
        let b = self.ranking[1];
        let c = self.ranking[2];
        let usable = a != Shift::NoPreference && b != Shift::NoPreference
            && c != Shift::NoPreference && a != b && a != c && b != c;
        if usable {
            self.ranking
        } else {
            let r = [Shift::Morning, Shift::Afternoon, Shift::Evening];
            assert(r@ =~= default_ranking());
            r
        }
    }

    /// Takes a ranking from the parts of an answer, in the order given. Only
    /// an answer of exactly three parts is taken; any other leaves the
    /// ranking as it was. Returns whether the ranking was taken.
    pub fn set_ranking(&mut self, parts: &Vec<Shift>) -> (taken: bool)
        ensures
            taken == (parts@.len() == 3),
            taken ==> final(self).ranking@ == parts@,
            !taken ==> final(self).ranking == old(self).ranking,
            final(self).name == old(self).name,
            final(self).preferred_per_day == old(self).preferred_per_day,
            final(self).assigned_days == old(self).assigned_days,
    {
        if parts.len() == 3 {
            self.ranking = [parts[0], parts[1], parts[2]];
            assert(self.ranking@ =~= parts@);
            true
        } else {
            false
        }
    }
}

/// The name of the `i`-th employee of the sample roster.
pub open spec fn sample_name(i: int) -> Seq<char> {
    if i == 0 {
        "Alan"@
    } else if i == 1 {
        "Bob"@
    } else if i == 2 {
        "Carol"@
    } else if i == 3 {
        "Dan"@
    } else if i == 4 {
        "Eve"@
    } else if i == 5 {
        "Frank"@
    } else if i == 6 {
        "Grace"@
    } else {
        "Heidi"@
    }
}

/// The preferences of the `i`-th employee of the sample roster.
pub open spec fn sample_preferences(i: int) -> Seq<Shift> {
    if i == 0 {
        Seq::new(7, |d: int| Shift::Morning)
    } else if i == 1 {
        Seq::new(7, |d: int| Shift::Afternoon)
    } else if i == 2 {
        Seq::new(7, |d: int| if d <= 4 { Shift::Evening } else { Shift::Morning })
    } else if i == 3 {
        seq![
            Shift::Morning, Shift::Afternoon, Shift::Evening, Shift::Morning,
            Shift::Afternoon, Shift::Evening, Shift::Morning,
        ]
    } else if i == 4 {
        seq![
            Shift::Afternoon, Shift::Afternoon, Shift::Morning, Shift::Morning,
            Shift::Evening, Shift::Afternoon, Shift::Evening,
        ]
    } else if i == 5 {
        Seq::new(7, |d: int| Shift::Morning)
    } else if i == 6 {
        Seq::new(7, |d: int| Shift::Evening)
    } else {
        seq![
            Shift::NoPreference, Shift::Afternoon, Shift::Afternoon, Shift::Afternoon,
            Shift::NoPreference, Shift::Morning, Shift::Morning,
        ]
    }
}

/// The ranking of the `i`-th employee of the sample roster.
pub open spec fn sample_ranking(i: int) -> Seq<Shift> {
    if i == 1 {
        seq![Shift::Afternoon, Shift::Evening, Shift::Morning]
    } else if i == 2 {
        seq![Shift::Evening, Shift::Morning, Shift::Afternoon]
    } else {
        default_ranking()
    }
}

/// Whether `e` is the `i`-th employee of the sample roster, before any pass.
pub open spec fn is_sample(e: Employee, i: int) -> bool {
    &&& e.name@ == sample_name(i)
    &&& e.preferred_per_day@ == sample_preferences(i)
    &&& e.ranking@ == sample_ranking(i)
    &&& e.assigned_days == 0
}

/// An employee with the given name, preferences and ranking, and no days
/// assigned.
fn with_wishes(name: &str, preferred: [Shift; 7], ranking: [Shift; 3]) -> (e: Employee)
    ensures
        e.name@ == name@,
        e.preferred_per_day == preferred,
        e.ranking == ranking,
        e.assigned_days == 0,
{
    let mut e = Employee::new(name);
    e.preferred_per_day = preferred;
    e.ranking = ranking;
    e
}

/// A fixed roster of eight employees for trying the scheduler out.
pub fn sample_employees() -> (emps: Vec<Employee>)
    ensures
        emps@.len() == 8,
        forall|i: int| 0 <= i < 8 ==> is_sample(#[trigger] emps@[i], i),
{
    let m = Shift::Morning;
    let a = Shift::Afternoon;
    let e = Shift::Evening;
    let n = Shift::NoPreference;
    let mut emps: Vec<Employee> = Vec::new();
    emps.push(with_wishes("Alan", [m; 7], [m, a, e]));
    emps.push(with_wishes("Bob", [a; 7], [a, e, m]));
    emps.push(with_wishes("Carol", [e, e, e, e, e, m, m], [e, m, a]));
    emps.push(with_wishes("Dan", [m, a, e, m, a, e, m], [m, a, e]));
    emps.push(with_wishes("Eve", [a, a, m, m, e, a, e], [m, a, e]));
    emps.push(with_wishes("Frank", [m; 7], [m, a, e]));
    emps.push(with_wishes("Grace", [e; 7], [m, a, e]));
    emps.push(with_wishes("Heidi", [n, a, a, a, n, m, m], [m, a, e]));
    proof {
        assert(emps@[0].preferred_per_day@ =~= sample_preferences(0));
        assert(emps@[1].preferred_per_day@ =~= sample_preferences(1));
        assert(emps@[2].preferred_per_day@ =~= sample_preferences(2));
        assert(emps@[3].preferred_per_day@ =~= sample_preferences(3));
        assert(emps@[4].preferred_per_day@ =~= sample_preferences(4));
        assert(emps@[5].preferred_per_day@ =~= sample_preferences(5));
        assert(emps@[6].preferred_per_day@ =~= sample_preferences(6));
        assert(emps@[7].preferred_per_day@ =~= sample_preferences(7));
        assert(emps@[0].ranking@ =~= sample_ranking(0));
        assert(emps@[1].ranking@ =~= sample_ranking(1));
        assert(emps@[2].ranking@ =~= sample_ranking(2));
        assert(emps@[3].ranking@ =~= sample_ranking(3));
        assert(emps@[4].ranking@ =~= sample_ranking(4));
        assert(emps@[5].ranking@ =~= sample_ranking(5));
        assert(emps@[6].ranking@ =~= sample_ranking(6));
        assert(emps@[7].ranking@ =~= sample_ranking(7));
    }
    emps
}

} // verus!
