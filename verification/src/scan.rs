use crate::shared::Part;
use vstd::prelude::*;

verus! {

// ---------------------------------------------------------------------------
// The mathematical model: which digit values a line of text contains.
//
// A digit value is an integer in [0, 9], derived either from an ASCII digit
// character or (in part two) from one of the English words "one".."nine".
// A zero digit counts like any other digit: the first digit value of "0ab1"
// is 0, tracked with an explicit "no digit yet" state rather than a sentinel
// value that would collide with a legitimate 0.
// ---------------------------------------------------------------------------
/// Is `c` an ASCII digit character?
pub open spec fn is_digit_char(c: char) -> bool {
    '0' as u32 <= c as u32 && c as u32 <= '9' as u32
}

/// The numeric value of an ASCII digit character.
pub open spec fn digit_char_value(c: char) -> int {
    c as u32 - '0' as u32
}

/// The digit values of a line under the part-one rule: the values of its
/// ASCII digit characters, in order of appearance.
pub open spec fn part_one_digits(s: Seq<char>) -> Seq<int>
    decreases s.len(),
{
    if s.len() == 0 {
        Seq::empty()
    } else if is_digit_char(s.last()) {
        part_one_digits(s.drop_last()).push(digit_char_value(s.last()))
    } else {
        part_one_digits(s.drop_last())
    }
}

/// Does `s` end with the three characters `a`, `b`, `c`?
pub open spec fn ends3(s: Seq<char>, a: char, b: char, c: char) -> bool {
    &&& s.len() >= 3
    &&& s[s.len() - 3] == a
    &&& s[s.len() - 2] == b
    &&& s[s.len() - 1] == c
}

/// Does `s` end with the four characters `a`, `b`, `c`, `d`?
pub open spec fn ends4(s: Seq<char>, a: char, b: char, c: char, d: char) -> bool {
    &&& s.len() >= 4
    &&& s[s.len() - 4] == a
    &&& ends3(s, b, c, d)
}

/// Does `s` end with the five characters `a`, `b`, `c`, `d`, `e`?
pub open spec fn ends5(s: Seq<char>, a: char, b: char, c: char, d: char, e: char) -> bool {
    &&& s.len() >= 5
    &&& s[s.len() - 5] == a
    &&& ends4(s, b, c, d, e)
}

/// The digit value of the number word that `buf` ends with, if any.
///
/// No number word is a suffix of another, so at most one of these cases can
/// hold and the order of the tests does not matter.
pub open spec fn word_match(buf: Seq<char>) -> Option<int> {
    if ends3(buf, 'o', 'n', 'e') {
        Some(1)
    } else if ends3(buf, 't', 'w', 'o') {
        Some(2)
    } else if ends5(buf, 't', 'h', 'r', 'e', 'e') {
        Some(3)
    } else if ends4(buf, 'f', 'o', 'u', 'r') {
        Some(4)
    } else if ends4(buf, 'f', 'i', 'v', 'e') {
        Some(5)
    } else if ends3(buf, 's', 'i', 'x') {
        Some(6)
    } else if ends5(buf, 's', 'e', 'v', 'e', 'n') {
        Some(7)
    } else if ends5(buf, 'e', 'i', 'g', 'h', 't') {
        Some(8)
    } else if ends4(buf, 'n', 'i', 'n', 'e') {
        Some(9)
    } else {
        None
    }
}

/// The digit values found from position `i` onwards under the part-two rule,
/// given the run `buf` of non-digit characters accumulated since the last
/// digit or word match.
///
/// A digit character contributes its value and clears the accumulated run; a
/// non-digit character extends the run, and if the run then ends with a
/// number word, that word's value is contributed and the run is cleared.
/// Clearing on a match means that of two overlapping words only the earlier
/// one counts: "twone" contributes 2 and not 1.
pub open spec fn part_two_scan(s: Seq<char>, i: int, buf: Seq<char>) -> Seq<int>
    decreases s.len() - i,
{
    if i < 0 || i >= s.len() {
        Seq::empty()
    } else if is_digit_char(s[i]) {
        seq![digit_char_value(s[i])] + part_two_scan(s, i + 1, Seq::empty())
    } else {
        let buf2 = buf.push(s[i]);
        match word_match(buf2) {
            Some(v) => seq![v] + part_two_scan(s, i + 1, Seq::empty()),
            None => part_two_scan(s, i + 1, buf2),
        }
    }
}

/// The digit values of a line under the part-two rule: digit characters and
/// recognized number words, in order of appearance.
pub open spec fn part_two_digits(s: Seq<char>) -> Seq<int> {
    part_two_scan(s, 0, Seq::empty())
}

/// The digit values of a line under the rule of the given part.
pub open spec fn line_digits(part: Part, s: Seq<char>) -> Seq<int> {
    match part {
        Part::PartOne => part_one_digits(s),
        Part::PartTwo => part_two_digits(s),
    }
}

/// The result of a line: the two-digit number formed from its first and last
/// digit values, or nothing if the line contains no digit value. A line with
/// a single digit value repeats it: first and last coincide.
pub open spec fn line_result(part: Part, s: Seq<char>) -> Option<int> {
    let ds = line_digits(part, s);
    if ds.len() == 0 {
        None
    } else {
        Some(ds[0] * 10 + ds[ds.len() - 1])
    }
}

// ---------------------------------------------------------------------------
// Laws of the per-line model.
// ---------------------------------------------------------------------------
proof fn lemma_part_one_digits_in_range(s: Seq<char>)
    ensures
        forall|j: int|
            0 <= j < part_one_digits(s).len() ==> 0 <= #[trigger] part_one_digits(s)[j] <= 9,
    decreases s.len(),
{
    if s.len() > 0 {
        lemma_part_one_digits_in_range(s.drop_last());
        let ds0 = part_one_digits(s.drop_last());
        assert forall|j: int| 0 <= j < part_one_digits(s).len() implies 0 <= #[trigger] part_one_digits(
            s,
        )[j] <= 9 by {
            if j < ds0.len() {
                assert(part_one_digits(s)[j] == ds0[j]);
            }
        }
    }
}

proof fn lemma_part_two_scan_in_range(s: Seq<char>, i: int, buf: Seq<char>)
    ensures
        forall|j: int|
            0 <= j < part_two_scan(s, i, buf).len() ==> 0 <= #[trigger] part_two_scan(s, i, buf)[j]
                <= 9,
    decreases s.len() - i,
{
    if 0 <= i < s.len() {
        let buf2 = buf.push(s[i]);
        if is_digit_char(s[i]) {
            lemma_part_two_scan_in_range(s, i + 1, Seq::empty());
            let rest = part_two_scan(s, i + 1, Seq::empty());
            assert forall|j: int| 0 <= j < part_two_scan(s, i, buf).len() implies 0
                <= #[trigger] part_two_scan(s, i, buf)[j] <= 9 by {
                if j > 0 {
                    assert(part_two_scan(s, i, buf)[j] == rest[j - 1]);
                }
            }
        } else {
            match word_match(buf2) {
                Some(v) => {
                    lemma_part_two_scan_in_range(s, i + 1, Seq::empty());
                    let rest = part_two_scan(s, i + 1, Seq::empty());
                    assert forall|j: int| 0 <= j < part_two_scan(s, i, buf).len() implies 0
                        <= #[trigger] part_two_scan(s, i, buf)[j] <= 9 by {
                        if j > 0 {
                            assert(part_two_scan(s, i, buf)[j] == rest[j - 1]);
                        }
                    }
                },
                None => {
                    lemma_part_two_scan_in_range(s, i + 1, buf2);
                    assert forall|j: int| 0 <= j < part_two_scan(s, i, buf).len() implies 0
                        <= #[trigger] part_two_scan(s, i, buf)[j] <= 9 by {
                        assert(part_two_scan(s, i, buf)[j] == part_two_scan(s, i + 1, buf2)[j]);
                    }
                },
            }
        }
    }
}

/// Every digit value a line yields, under either rule, lies in [0, 9].
pub proof fn lemma_line_digits_in_range(part: Part, s: Seq<char>)
    ensures
        forall|j: int|
            0 <= j < line_digits(part, s).len() ==> 0 <= #[trigger] line_digits(part, s)[j] <= 9,
{
    match part {
        Part::PartOne => lemma_part_one_digits_in_range(s),
        Part::PartTwo => lemma_part_two_scan_in_range(s, 0, Seq::empty()),
    }
}

/// Whenever a line yields a result at all, that result lies in [0, 99].
pub proof fn lemma_line_result_bounded(part: Part, s: Seq<char>)
    ensures
        line_result(part, s) matches Some(v) ==> 0 <= v <= 99,
{
    lemma_line_digits_in_range(part, s);
}

/// A line with exactly one digit value repeats that digit: its result is the
/// digit times eleven.
pub proof fn lemma_single_digit_line(part: Part, s: Seq<char>)
    requires
        line_digits(part, s).len() == 1,
    ensures
        line_result(part, s) == Some(11 * line_digits(part, s)[0]),
{
}

proof fn lemma_part_one_digits_first(s: Seq<char>)
    requires
        s.len() >= 1,
        is_digit_char(s[0]),
    ensures
        part_one_digits(s).len() > 0,
        part_one_digits(s)[0] == digit_char_value(s[0]),
    decreases s.len(),
{
    if s.len() > 1 {
        assert(s.drop_last()[0] == s[0]);
        lemma_part_one_digits_first(s.drop_last());
        let ds0 = part_one_digits(s.drop_last());
        if is_digit_char(s.last()) {
            assert(part_one_digits(s)[0] == ds0[0]);
        }
    } else {
        assert(part_one_digits(s) == part_one_digits(s.drop_last()).push(digit_char_value(s[0])));
    }
}

proof fn lemma_part_two_scan_last(s: Seq<char>, i: int, buf: Seq<char>)
    requires
        0 <= i < s.len(),
        is_digit_char(s.last()),
    ensures
        part_two_scan(s, i, buf).len() > 0,
        part_two_scan(s, i, buf).last() == digit_char_value(s.last()),
    decreases s.len() - i,
{
    if i == s.len() - 1 {
        assert(part_two_scan(s, i, buf).last() == digit_char_value(s[i]));
    } else {
        if is_digit_char(s[i]) {
            lemma_part_two_scan_last(s, i + 1, Seq::empty());
        } else {
            let buf2 = buf.push(s[i]);
            match word_match(buf2) {
                Some(v) => lemma_part_two_scan_last(s, i + 1, Seq::empty()),
                None => lemma_part_two_scan_last(s, i + 1, buf2),
            }
        }
    }
}

/// A line whose first and last characters are both ASCII digits combines
/// exactly those two characters, whatever stands between them and under
/// either rule: interior digit values are ignored entirely.
pub proof fn lemma_boundary_digits(part: Part, s: Seq<char>)
    requires
        s.len() >= 1,
        is_digit_char(s[0]),
        is_digit_char(s[s.len() - 1]),
    ensures
        line_result(part, s) == Some(
            digit_char_value(s[0]) * 10 + digit_char_value(s[s.len() - 1]),
        ),
{
    match part {
        Part::PartOne => {
            lemma_part_one_digits_first(s);
        },
        Part::PartTwo => {
            lemma_part_two_scan_last(s, 0, Seq::empty());
        },
    }
}

// ---------------------------------------------------------------------------
// The executable scanners.
// ---------------------------------------------------------------------------
fn buf_ends3(buf: &Vec<char>, a: char, b: char, c: char) -> (r: bool)
    ensures
        r == ends3(buf@, a, b, c),
{
    let n = buf.len();
    n >= 3 && buf[n - 3] == a && buf[n - 2] == b && buf[n - 1] == c
}

fn buf_ends4(buf: &Vec<char>, a: char, b: char, c: char, d: char) -> (r: bool)
    ensures
        r == ends4(buf@, a, b, c, d),
{
    let n = buf.len();
    n >= 4 && buf[n - 4] == a && buf_ends3(buf, b, c, d)
}

fn buf_ends5(buf: &Vec<char>, a: char, b: char, c: char, d: char, e: char) -> (r: bool)
    ensures
        r == ends5(buf@, a, b, c, d, e),
{
    let n = buf.len();
    n >= 5 && buf[n - 5] == a && buf_ends4(buf, b, c, d, e)
}

/// The digit value of the number word that `buf` ends with, if any.
fn word_at_end(buf: &Vec<char>) -> (r: Option<u8>)
    ensures
        match (r, word_match(buf@)) {
            (Some(u), Some(v)) => u as int == v && 1 <= u <= 9,
            (None, None) => true,
            _ => false,
        },
{
    if buf_ends3(buf, 'o', 'n', 'e') {
        Some(1)
    } else if buf_ends3(buf, 't', 'w', 'o') {
        Some(2)
    } else if buf_ends5(buf, 't', 'h', 'r', 'e', 'e') {
        Some(3)
    } else if buf_ends4(buf, 'f', 'o', 'u', 'r') {
        Some(4)
    } else if buf_ends4(buf, 'f', 'i', 'v', 'e') {
        Some(5)
    } else if buf_ends3(buf, 's', 'i', 'x') {
        Some(6)
    } else if buf_ends5(buf, 's', 'e', 'v', 'e', 'n') {
        Some(7)
    } else if buf_ends5(buf, 'e', 'i', 'g', 'h', 't') {
        Some(8)
    } else if buf_ends4(buf, 'n', 'i', 'n', 'e') {
        Some(9)
    } else {
        None
    }
}

/// Scans one line under the part-one rule: the first and last ASCII digit
/// characters combined into a two-digit number, or `None` if the line has no
/// digit at all.
pub fn scan_line_part_one(line: &str) -> (r: Option<u8>)
    ensures
        match (r, line_result(Part::PartOne, line@)) {
            (Some(u), Some(v)) => u as int == v,
            (None, None) => true,
            _ => false,
        },
{
    let ghost s = line@;
    let n = line.unicode_len();
    let mut first: Option<u8> = None;
    let mut last: u8 = 0;
    let mut i: usize = 0;
    while i < n
        invariant
            s == line@,
            n == s.len(),
            i <= n,
            ({
                let ds = part_one_digits(s.take(i as int));
                match first {
                    None => ds.len() == 0 && last == 0,
                    Some(f) => ds.len() > 0 && f <= 9 && last <= 9 && f as int == ds[0] && last
                        as int == ds[ds.len() - 1],
                }
            }),
        decreases n - i,
    {
        let c = line.get_char(i);
        proof {
            assert(s.take(i as int + 1).drop_last() =~= s.take(i as int));
            assert(s.take(i as int + 1).last() == s[i as int]);
        }
        let u = c as u32;
        if '0' as u32 <= u && u <= '9' as u32 {
            let d = (u - '0' as u32) as u8;
            match first {
                None => {
                    first = Some(d);
                    last = d;
                },
                Some(_) => {
                    last = d;
                },
            }
        }
        i = i + 1;
    }
    proof {
        assert(s.take(n as int) =~= s);
    }
    match first {
        None => None,
        Some(f) => Some(f * 10 + last),
    }
}

/// Scans one line under the part-two rule: digit characters and recognized
/// number words combined into a two-digit number from the first and last
/// value found, or `None` if the line yields no digit value at all.
pub fn scan_line_part_two(line: &str) -> (r: Option<u8>)
    ensures
        match (r, line_result(Part::PartTwo, line@)) {
            (Some(u), Some(v)) => u as int == v,
            (None, None) => true,
            _ => false,
        },
{
    let ghost s = line@;
    let n = line.unicode_len();
    let mut first: Option<u8> = None;
    let mut last: u8 = 0;
    let mut buf: Vec<char> = Vec::new();
    let ghost mut found: Seq<int> = Seq::empty();
    let mut i: usize = 0;
    while i < n
        invariant
            s == line@,
            n == s.len(),
            i <= n,
            part_two_digits(s) == found + part_two_scan(s, i as int, buf@),
            match first {
                None => found.len() == 0 && last == 0,
                Some(f) => found.len() > 0 && f <= 9 && last <= 9 && f as int == found[0] && last
                    as int == found[found.len() - 1],
            },
        decreases n - i,
    {
        let c = line.get_char(i);
        let ghost buf_before = buf@;
        let u = c as u32;
        if '0' as u32 <= u && u <= '9' as u32 {
            let d = (u - '0' as u32) as u8;
            match first {
                None => {
                    first = Some(d);
                    last = d;
                },
                Some(_) => {
                    last = d;
                },
            }
            buf.clear();
            proof {
                found = found.push(d as int);
                assert(found + part_two_scan(s, i as int + 1, buf@) =~= (found.drop_last() + (seq![
                    d as int,
                ] + part_two_scan(s, i as int + 1, Seq::empty()))));
            }
        } else {
            buf.push(c);
            match word_at_end(&buf) {
                Some(v) => {
                    match first {
                        None => {
                            first = Some(v);
                            last = v;
                        },
                        Some(_) => {
                            last = v;
                        },
                    }
                    buf.clear();
                    proof {
                        found = found.push(v as int);
                        assert(found + part_two_scan(s, i as int + 1, buf@) =~= (
                        found.drop_last() + (seq![v as int] + part_two_scan(
                            s,
                            i as int + 1,
                            Seq::empty(),
                        ))));
                    }
                },
                None => {
                    proof {
                        assert(buf@ == buf_before.push(s[i as int]));
                    }
                },
            }
        }
        i = i + 1;
    }
    proof {
        assert(part_two_digits(s) =~= found);
    }
    match first {
        None => None,
        Some(f) => Some(f * 10 + last),
    }
}

} // verus!
