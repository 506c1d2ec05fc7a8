use crate::scan::line_result;
use crate::scan::scan_line_part_one;
use crate::scan::scan_line_part_two;
use crate::shared::DayRunner;
use crate::shared::Part;
use crate::shared::RunError;
use vstd::prelude::*;

verus! {

/// The views of a sequence of owned lines: each line as its sequence of
/// characters.
pub open spec fn lines_view(v: Seq<String>) -> Seq<Seq<char>> {
    v.map_values(|s: String| s@)
}

/// The outcome of running the given part over the lines from index `i`
/// onwards, having already accumulated `acc`: the final total, or the first
/// failure met scanning the lines in order.
pub open spec fn run_result_from(part: Part, lines: Seq<Seq<char>>, i: int, acc: u32) -> Result<
    u32,
    RunError,
>
    decreases lines.len() - i,
{
    if i < 0 || i >= lines.len() {
        Ok(acc)
    } else {
        match line_result(part, lines[i]) {
            None => Err(RunError::NoDigit { line: i as usize }),
            Some(v) => if acc + v > u32::MAX {
                Err(RunError::Overflow)
            } else {
                run_result_from(part, lines, i + 1, (acc + v) as u32)
            },
        }
    }
}

/// The outcome of running the given part over all lines: the sum of the line
/// results, or the first failure. A line without any digit value fails with
/// its index; a sum that leaves `u32` fails as an overflow.
pub open spec fn run_result(part: Part, lines: Seq<Seq<char>>) -> Result<u32, RunError> {
    run_result_from(part, lines, 0, 0)
}

// ---------------------------------------------------------------------------
// Laws of the run-level model.
// ---------------------------------------------------------------------------
/// Does every line contain at least one digit value under the given rule?
pub open spec fn all_lines_have_digits(part: Part, lines: Seq<Seq<char>>) -> bool {
    forall|j: int| 0 <= j < lines.len() ==> #[trigger] line_result(part, lines[j]) is Some
}

/// The result of one line, counting a line without digits as zero.
pub open spec fn line_value(part: Part, s: Seq<char>) -> int {
    match line_result(part, s) {
        Some(v) => v,
        None => 0,
    }
}

/// The mathematical sum of the line results from index `i` onwards.
pub open spec fn results_total_from(part: Part, lines: Seq<Seq<char>>, i: int) -> int
    decreases lines.len() - i,
{
    if i < 0 || i >= lines.len() {
        0
    } else {
        line_value(part, lines[i]) + results_total_from(part, lines, i + 1)
    }
}

/// The mathematical sum of all line results.
pub open spec fn results_total(part: Part, lines: Seq<Seq<char>>) -> int {
    results_total_from(part, lines, 0)
}

proof fn lemma_results_total_from_bounds(part: Part, lines: Seq<Seq<char>>, i: int)
    ensures
        0 <= results_total_from(part, lines, i),
    decreases lines.len() - i,
{
    if 0 <= i < lines.len() {
        crate::scan::lemma_line_result_bounded(part, lines[i]);
        lemma_results_total_from_bounds(part, lines, i + 1);
    }
}

proof fn lemma_run_result_from_ok(part: Part, lines: Seq<Seq<char>>, i: int, acc: u32)
    requires
        0 <= i <= lines.len(),
    ensures
        run_result_from(part, lines, i, acc) is Ok <==> ((forall|j: int|
            i <= j < lines.len() ==> #[trigger] line_result(part, lines[j]) is Some) && acc
            + results_total_from(part, lines, i) <= u32::MAX),
        run_result_from(part, lines, i, acc) is Ok ==> run_result_from(part, lines, i, acc)->Ok_0
            == acc + results_total_from(part, lines, i),
    decreases lines.len() - i,
{
    if i < lines.len() {
        crate::scan::lemma_line_result_bounded(part, lines[i]);
        lemma_results_total_from_bounds(part, lines, i + 1);
        match line_result(part, lines[i]) {
            None => {
                assert(!(forall|j: int|
                    i <= j < lines.len() ==> #[trigger] line_result(part, lines[j]) is Some)) by {
                    assert(line_result(part, lines[i]) is None);
                }
            },
            Some(v) => {
                if acc + v <= u32::MAX {
                    lemma_run_result_from_ok(part, lines, i + 1, (acc + v) as u32);
                    if (forall|j: int|
                        i + 1 <= j < lines.len() ==> #[trigger] line_result(part, lines[j])
                            is Some) {
                        assert(forall|j: int|
                            i <= j < lines.len() ==> #[trigger] line_result(part, lines[j])
                                is Some);
                    }
                }
            },
        }
    }
}

/// A run succeeds exactly when every line contains at least one digit value
/// and the sum of the line results fits in a `u32`; the total it returns is
/// then exactly that sum.
pub proof fn lemma_run_result_ok(part: Part, lines: Seq<Seq<char>>)
    ensures
        run_result(part, lines) is Ok <==> (all_lines_have_digits(part, lines) && results_total(
            part,
            lines,
        ) <= u32::MAX),
        run_result(part, lines) is Ok ==> run_result(part, lines)->Ok_0 == results_total(
            part,
            lines,
        ),
{
    lemma_run_result_from_ok(part, lines, 0, 0);
}

proof fn lemma_run_result_from_no_digit(
    part: Part,
    lines: Seq<Seq<char>>,
    k: int,
    acc: u32,
    i: usize,
)
    requires
        0 <= k <= lines.len() <= usize::MAX,
        run_result_from(part, lines, k, acc) == Err::<u32, RunError>(RunError::NoDigit { line: i }),
    ensures
        k <= i < lines.len(),
        line_result(part, lines[i as int]) is None,
        forall|j: int| k <= j < i ==> #[trigger] line_result(part, lines[j]) is Some,
    decreases lines.len() - k,
{
    if k < lines.len() {
        match line_result(part, lines[k]) {
            None => {
                assert(i == k);
            },
            Some(v) => {
                crate::scan::lemma_line_result_bounded(part, lines[k]);
                if acc + v <= u32::MAX {
                    lemma_run_result_from_no_digit(part, lines, k + 1, (acc + v) as u32, i);
                }
            },
        }
    }
}

/// A missing-digit failure names the first line without any digit value:
/// that line has none, and every line before it has one.
pub proof fn lemma_run_result_no_digit(part: Part, lines: Seq<Seq<char>>, i: usize)
    requires
        lines.len() <= usize::MAX,
        run_result(part, lines) == Err::<u32, RunError>(RunError::NoDigit { line: i }),
    ensures
        i < lines.len(),
        line_result(part, lines[i as int]) is None,
        forall|j: int| 0 <= j < i ==> #[trigger] line_result(part, lines[j]) is Some,
{
    lemma_run_result_from_no_digit(part, lines, 0, 0, i);
}

proof fn lemma_run_result_from_overflow(part: Part, lines: Seq<Seq<char>>, k: int, acc: u32)
    requires
        0 <= k <= lines.len(),
        run_result_from(part, lines, k, acc) == Err::<u32, RunError>(RunError::Overflow),
    ensures
        acc + results_total_from(part, lines, k) > u32::MAX,
    decreases lines.len() - k,
{
    if k < lines.len() {
        match line_result(part, lines[k]) {
            None => {},
            Some(v) => {
                crate::scan::lemma_line_result_bounded(part, lines[k]);
                lemma_results_total_from_bounds(part, lines, k + 1);
                assert(results_total_from(part, lines, k) == v + results_total_from(
                    part,
                    lines,
                    k + 1,
                ));
                if acc + v <= u32::MAX {
                    lemma_run_result_from_overflow(part, lines, k + 1, (acc + v) as u32);
                }
            },
        }
    }
}

/// An overflow failure only comes when the mathematical sum of the line
/// results truly leaves `u32`.
pub proof fn lemma_run_result_overflow(part: Part, lines: Seq<Seq<char>>)
    requires
        run_result(part, lines) == Err::<u32, RunError>(RunError::Overflow),
    ensures
        results_total(part, lines) > u32::MAX,
{
    lemma_run_result_from_overflow(part, lines, 0, 0);
}

/// Running the same lines twice with the same part yields the same outcome:
/// the result is a function of the input alone, with no hidden state.
pub proof fn lemma_run_deterministic(
    part: Part,
    lines: Seq<Seq<char>>,
    r1: Result<u32, RunError>,
    r2: Result<u32, RunError>,
)
    requires
        r1 == run_result(part, lines),
        r2 == run_result(part, lines),
    ensures
        r1 == r2,
{
}

/// Runs one puzzle day over an owned sequence of input lines.
#[derive(Clone, Debug)]
pub struct Runner {
    input: Vec<String>,
}

impl View for Runner {
    type V = Seq<Seq<char>>;

    closed spec fn view(&self) -> Seq<Seq<char>> {
        lines_view(self.input@)
    }
}

impl Runner {
    /// Builds a runner that owns the given input lines.
    pub fn new(input: Vec<String>) -> (r: Runner)
        ensures
            r@ == lines_view(input@),
    {
        Runner { input }
    }

    /// Sums the line results of every input line under the given part's rule.
    fn total(&self, part: Part) -> (r: Result<u32, RunError>)
        ensures
            r == run_result(part, self@),
    {
        let ghost lines = self@;
        let mut total: u32 = 0;
        let mut i: usize = 0;
        while i < self.input.len()
            invariant
                lines == lines_view(self.input@),
                i <= self.input@.len(),
                run_result(part, lines) == run_result_from(part, lines, i as int, total),
            decreases self.input@.len() - i,
        {
            proof {
                assert(lines[i as int] == self.input@[i as int]@);
            }
            let res = match part {
                Part::PartOne => scan_line_part_one(self.input[i].as_str()),
                Part::PartTwo => scan_line_part_two(self.input[i].as_str()),
            };
            match res {
                None => {
                    return Err(RunError::NoDigit { line: i });
                },
                Some(v) => {
                    if v as u32 <= u32::MAX - total {
                        total = total + v as u32;
                    } else {
                        return Err(RunError::Overflow);
                    }
                },
            }
            i = i + 1;
        }
        Ok(total)
    }

    /// Sums the two-digit numbers formed from the first and last ASCII digit
    /// of every line.
    pub fn run_part_one(&self) -> (r: Result<u32, RunError>)
        ensures
            r == run_result(Part::PartOne, self@),
    {
        self.total(Part::PartOne)
    }

    /// Sums the two-digit numbers formed from the first and last digit value
    /// of every line, where number words count as digits.
    pub fn run_part_two(&self) -> (r: Result<u32, RunError>)
        ensures
            r == run_result(Part::PartTwo, self@),
    {
        self.total(Part::PartTwo)
    }
}

impl DayRunner for Runner {
    type ReturnType = Result<u32, RunError>;

    open spec fn run_spec(&self, part: Part) -> Result<u32, RunError> {
        run_result(part, self@)
    }

    fn run(&self, part: &Part) -> (r: Result<u32, RunError>) {
        match part {
            Part::PartOne => self.run_part_one(),
            Part::PartTwo => self.run_part_two(),
        }
    }
}

} // verus!
