use vstd::prelude::*;

verus! {

/// Selects which puzzle's logic to execute. A closed enumeration: adding a
/// day means adding a variant and a match arm at each dispatch site.
#[derive(Clone, Copy, Debug, PartialEq, Eq, Structural)]
pub enum Day {
    DayOne,
}

impl Default for Day {
    fn default() -> (d: Day)
        ensures
            d == Day::DayOne,
    {
        Day::DayOne
    }
}

impl Day {
    /// The human-readable name of the day, as it appears on the command line.
    pub fn name(&self) -> (r: String)
        ensures
            r@ == "day-one"@,
    {
        String::from_str("day-one")
    }
}

/// Selects which of the two rule variants to apply within a day.
#[derive(Clone, Copy, Debug, PartialEq, Eq, Structural)]
pub enum Part {
    PartOne,
    PartTwo,
}

impl Default for Part {
    fn default() -> (p: Part)
        ensures
            p == Part::PartOne,
    {
        Part::PartOne
    }
}

impl Part {
    /// The human-readable name of the part, as it appears on the command line.
    pub fn name(&self) -> (r: String)
        ensures
            *self == Part::PartOne ==> r@ == "part-one"@,
            *self == Part::PartTwo ==> r@ == "part-two"@,
    {
        match self {
            Part::PartOne => String::from_str("part-one"),
            Part::PartTwo => String::from_str("part-two"),
        }
    }
}

/// Why a run could not produce a total.
#[derive(Clone, Copy, Debug, PartialEq, Eq, Structural)]
pub enum RunError {
    /// The line at this index contains no digit value at all.
    NoDigit { line: usize },
    /// The sum of the line results does not fit in a `u32`.
    Overflow,
}

/// Common behaviour of each daily challenge: map a selected part to a result.
pub trait DayRunner {
    type ReturnType;

    /// What `run` returns for each part, as a mathematical function of the
    /// runner's state.
    spec fn run_spec(&self, part: Part) -> Self::ReturnType;

    fn run(&self, part: &Part) -> (r: Self::ReturnType)
        ensures
            r == self.run_spec(*part),
    ;
}

} // verus!
