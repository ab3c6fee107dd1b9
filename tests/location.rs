use sed::command::{CommandLocation, CommandLocationRange};
use sed::pattern::Pattern;
use sed::reader::Line;

fn line(n: usize, text: &str, last: bool) -> Line {
    Line { line_number: n, text: text.to_string(), is_last_line: last }
}

#[test]
fn test_global() {
    let mut location = CommandLocation::Global;
    let line = Line {
        line_number: 100,
        text: "Hello World".to_string(),
        is_last_line: false,
    };

    assert!(location.matches(&line));
}

#[test]
fn test_line_number() {
    let mut location = CommandLocation::LineNumber(10);
    let mut line = Line {
        line_number: 0,
        text: "Hello World".to_string(),
        is_last_line: false,
    };

    for i in 8..=12 {
        line.line_number = i;
        assert_eq!(location.matches(&line), i == 10)
    }
}

#[test]
fn test_last_line() {
    let mut location = CommandLocation::LastLine;
    let mut line = Line {
        line_number: 0,
        text: "Hello World".to_string(),
        is_last_line: false,
    };

    assert!(!location.matches(&line));
    line.is_last_line = true;
    assert!(location.matches(&line));
}

#[test]
fn test_regex() {
    let mut location = CommandLocation::Regex(Pattern::new("Hello").unwrap());
    let mut line = Line {
        line_number: 0,
        text: "Hello World".to_string(),
        is_last_line: false,
    };

    assert!(location.matches(&line));
    line.text = "World".to_string();
    assert!(!location.matches(&line));
}

#[test]
fn test_range_line_numbers() {
    let start = CommandLocation::LineNumber(3);
    let end = CommandLocation::LineNumber(6);
    let range = CommandLocationRange::new(start, end);
    let mut location = CommandLocation::Range(range);

    let mut line = Line {
        line_number: 0,
        text: "Hello World".to_string(),
        is_last_line: false,
    };

    for i in 1..=10 {
        line.line_number = i;
        assert_eq!(location.matches(&line), 3 <= i && i <= 6);
    }
}

#[test]
fn line_number_matches_only_its_line() {
    let mut location = CommandLocation::LineNumber(4);
    let hits: Vec<usize> = (1..=9)
        .filter(|&i| location.matches(&line(i, "x\n", i == 9)))
        .collect();
    assert_eq!(hits, vec![4]);
}

#[test]
fn range_reopens_on_a_later_start() {
    let start = CommandLocation::Regex(Pattern::new("begin").unwrap());
    let end = CommandLocation::Regex(Pattern::new("end").unwrap());
    let mut location = CommandLocation::Range(CommandLocationRange::new(start, end));
    let texts = ["a", "begin", "b", "end", "c", "begin", "d"];
    let got: Vec<bool> = texts
        .iter()
        .enumerate()
        .map(|(i, t)| location.matches(&line(i + 1, t, false)))
        .collect();
    assert_eq!(got, vec![false, true, true, true, false, true, true]);
}

#[test]
fn range_does_not_close_on_its_opening_line() {
    let start = CommandLocation::LineNumber(2);
    let end = CommandLocation::LineNumber(2);
    let mut location = CommandLocation::Range(CommandLocationRange::new(start, end));
    let got: Vec<bool> = (1..=4).map(|i| location.matches(&line(i, "x\n", false))).collect();
    assert_eq!(got, vec![false, true, true, true]);
}

#[test]
fn range_with_end_before_start_runs_to_the_end() {
    let start = CommandLocation::LineNumber(5);
    let end = CommandLocation::LineNumber(2);
    let mut location = CommandLocation::Range(CommandLocationRange::new(start, end));
    let got: Vec<bool> = (1..=7).map(|i| location.matches(&line(i, "x\n", false))).collect();
    assert_eq!(got, vec![false, false, false, false, true, true, true]);
}

#[test]
fn range_to_last_line() {
    let start = CommandLocation::LineNumber(2);
    let end = CommandLocation::LastLine;
    let mut location = CommandLocation::Range(CommandLocationRange::new(start, end));
    let got: Vec<bool> = (1..=4).map(|i| location.matches(&line(i, "x\n", i == 4))).collect();
    assert_eq!(got, vec![false, true, true, true]);
    assert!(!location.matches(&line(1, "x\n", false)));
}
