use day_one::scan::scan_line_part_one;
use day_one::scan::scan_line_part_two;
use day_one::Day;
use day_one::DayRunner;
use day_one::Part;
use day_one::RunError;
use day_one::Runner;

fn convert_test_input(input: &str) -> Vec<String> {
    input
        .to_string()
        .lines()
        .map(|line| line.to_owned())
        .collect::<Vec<String>>()
}

#[test]
fn part_one() {
    let test_input = convert_test_input(
        "1abc2
pqr3stu8vwx
a1b2c3d4e5f
treb7uchet",
    );
    let runner = Runner::new(test_input);
    let output = runner.run(&Part::PartOne);
    assert!(output.is_ok());
    assert!(output.unwrap() == 142);
}

#[test]
fn part_two() {
    let test_input = convert_test_input(
        "two1nine
eightwothree
abcone2threexyz
xtwone3four
4nineeightseven2
zoneight234
7pqrstsixteen",
    );
    let runner = Runner::new(test_input);
    let output = runner.run(&Part::PartTwo);
    assert!(output.is_ok());
    assert!(output.unwrap() == 281);
}

#[test]
fn single_digit_line_repeats_it() {
    let runner = Runner::new(vec!["treb7uchet".to_string()]);
    assert_eq!(runner.run(&Part::PartOne), Ok(77));
    let runner = Runner::new(vec!["xsevenx".to_string()]);
    assert_eq!(runner.run(&Part::PartTwo), Ok(77));
}

#[test]
fn line_results_stay_in_range() {
    // The largest possible line result.
    let runner = Runner::new(vec!["99".to_string()]);
    assert_eq!(runner.run(&Part::PartOne), Ok(99));
    // The smallest: a lone zero repeated.
    let runner = Runner::new(vec!["0".to_string()]);
    assert_eq!(runner.run(&Part::PartOne), Ok(0));
}

#[test]
fn boundary_digits_ignore_interior() {
    // Digits at the very start and very end combine; the interior ones do
    // not enter the result at all.
    let runner = Runner::new(vec!["5xx7xx3xx9".to_string()]);
    assert_eq!(runner.run(&Part::PartOne), Ok(59));
    assert_eq!(runner.run(&Part::PartTwo), Ok(59));
}

#[test]
fn zero_counts_as_first_digit() {
    // A leading zero is a digit like any other: "0ab1" combines 0 and 1
    // into 1, rather than skipping the zero.
    let runner = Runner::new(vec!["0ab1".to_string()]);
    assert_eq!(runner.run(&Part::PartOne), Ok(1));
    assert_eq!(runner.run(&Part::PartTwo), Ok(1));
}

#[test]
fn running_twice_gives_the_same_total() {
    let input = convert_test_input("1abc2\npqr3stu8vwx\na1b2c3d4e5f\ntreb7uchet");
    let runner = Runner::new(input);
    let first = runner.run(&Part::PartOne);
    let second = runner.run(&Part::PartOne);
    assert_eq!(first, second);
}

#[test]
fn no_digit_line_is_reported_with_its_index() {
    let runner = Runner::new(vec!["abc".to_string()]);
    assert_eq!(runner.run(&Part::PartOne), Err(RunError::NoDigit { line: 0 }));
    let runner = Runner::new(vec!["1abc2".to_string(), "xyz".to_string()]);
    assert_eq!(runner.run(&Part::PartOne), Err(RunError::NoDigit { line: 1 }));
    // An empty line has no digit either.
    let runner = Runner::new(vec!["".to_string()]);
    assert_eq!(runner.run(&Part::PartTwo), Err(RunError::NoDigit { line: 0 }));
}

#[test]
fn empty_input_sums_to_zero() {
    let runner = Runner::new(Vec::new());
    assert_eq!(runner.run(&Part::PartOne), Ok(0));
    assert_eq!(runner.run(&Part::PartTwo), Ok(0));
}

#[test]
fn overlapping_words_keep_only_the_earlier() {
    // A word match clears the accumulated characters, so of two overlapping
    // words only the earlier one counts.
    assert_eq!(scan_line_part_two("twone"), Some(22));
    assert_eq!(scan_line_part_two("zoneight"), Some(11));
    assert_eq!(scan_line_part_two("eightwo"), Some(88));
}

#[test]
fn digit_characters_break_words() {
    // A digit clears the accumulated characters, so a word split by a digit
    // is not recognized.
    assert_eq!(scan_line_part_two("on1e"), Some(11));
    assert_eq!(scan_line_part_two("fo4ur"), Some(44));
}

#[test]
fn scanners_on_single_lines() {
    assert_eq!(scan_line_part_one("1abc2"), Some(12));
    assert_eq!(scan_line_part_one("treb7uchet"), Some(77));
    assert_eq!(scan_line_part_one("nothing"), None);
    assert_eq!(scan_line_part_two("two1nine"), Some(29));
    assert_eq!(scan_line_part_two("7pqrstsixteen"), Some(76));
    assert_eq!(scan_line_part_two("pqrst"), None);
}

#[test]
fn selector_names_and_defaults() {
    assert_eq!(Day::default(), Day::DayOne);
    assert_eq!(Part::default(), Part::PartOne);
    assert_eq!(Day::DayOne.name(), "day-one");
    assert_eq!(Part::PartOne.name(), "part-one");
    assert_eq!(Part::PartTwo.name(), "part-two");
}
