//! The three daily shifts and the "no preference" marker.

use vstd::prelude::*;
use vstd::string::StrSliceExecFns;

verus! {

/// A daily work period, or `NoPreference` where an employee states none.
///
/// `NoPreference` is a preference value only: nobody is ever placed into it.
#[derive(Clone, Copy, Debug, PartialEq, Eq, Hash, Structural)]
pub enum Shift {
    Morning,
    Afternoon,
    Evening,
    NoPreference,
}

/// The slot number of a shift within a day; `NoPreference` maps past the
/// last slot.
pub open spec fn shift_index(s: Shift) -> int {
    match s {
        Shift::Morning => 0,
        Shift::Afternoon => 1,
        Shift::Evening => 2,
        Shift::NoPreference => 3,
    }
}

/// The slot number of a shift within a day.
pub fn shift_to_index(s: Shift) -> (r: usize)
    ensures
        r == shift_index(s),
        (r < 3) == (s != Shift::NoPreference),
{
    match s {
        Shift::Morning => 0,
        Shift::Afternoon => 1,
        Shift::Evening => 2,
        Shift::NoPreference => 3,
    }
}

/// What `str::trim` makes of a text: the text without its leading and
/// trailing Unicode white space.
pub uninterp spec fn trimmed(text: Seq<char>) -> Seq<char>;

/// What `str::to_lowercase` makes of a text: its Unicode lower-case form.
pub uninterp spec fn lowercased(text: Seq<char>) -> Seq<char>;

/// Calls `str::trim`. Trusted: the result is the text that `trimmed` names.
#[verifier::external_body]
fn trim_text(text: &str) -> (r: &str)
    ensures
        r@ == trimmed(text@),
{
    text.trim()
}

/// Calls `str::to_lowercase`. Trusted: the result is the text that
/// `lowercased` names.
#[verifier::external_body]
fn lowercase_text(text: &str) -> (r: String)
    ensures
        r@ == lowercased(text@),
{
    text.to_lowercase()
}

impl Shift {
    /// The one-letter label of a shift.
    pub open spec fn label(self) -> Seq<char> {
        match self {
            Shift::Morning => seq!['M'],
            Shift::Afternoon => seq!['A'],
            Shift::Evening => seq!['E'],
            Shift::NoPreference => seq!['-'],
        }
    }

    /// The shift that a normalised answer stands for: decided by its first
    /// character alone, `m`, `a` or `e`; anything else is no preference.
    pub open spec fn of_answer(answer: Seq<char>) -> Shift {
        if answer.len() == 0 {
            Shift::NoPreference
        } else if answer[0] == 'm' {
            Shift::Morning
        } else if answer[0] == 'a' {
            Shift::Afternoon
        } else if answer[0] == 'e' {
            Shift::Evening
        } else {
            Shift::NoPreference
        }
    }

    /// The one-letter label of a shift: `M`, `A`, `E`, or `-` for none.
    pub fn as_str(&self) -> (r: &'static str)
        ensures
            r@ == self.label(),
    {
        proof {
            reveal_strlit("M");
            reveal_strlit("A");
            reveal_strlit("E");
            reveal_strlit("-");
        }
        let r = match self {
            Shift::Morning => "M",
            Shift::Afternoon => "A",
            Shift::Evening => "E",
            Shift::NoPreference => "-",
        };
        assert(r@ =~= self.label());
        r
    }

    /// Reads a shift from an answer that is already trimmed and in lower
    /// case.
    pub fn from_answer(answer: &str) -> (r: Shift)
        ensures
            r == Shift::of_answer(answer@),
    {
        if answer.unicode_len() == 0 {
            return Shift::NoPreference;
        }
        let first = answer.get_char(0);
        if first == 'm' {
            Shift::Morning
        } else if first == 'a' {
            Shift::Afternoon
        } else if first == 'e' {
            Shift::Evening
        } else {
            Shift::NoPreference
        }
    }

    /// Reads a shift from free text: surrounding white space and letter case
    /// are ignored, then the first character decides.
    pub fn from_str(s: &str) -> (r: Shift)
        ensures
            r == Shift::of_answer(lowercased(trimmed(s@))),
    {
        let x = lowercase_text(trim_text(s));
        Shift::from_answer(x.as_str())
    }
}

} // verus!
