use sed::engine::{apply_commands, run, Settings};
use sed::reader::{Buffer, GeneralReader, Line, Reader, StdinReader};
use sed::script::{parse_commands, ParseError};
use sed::transformers::TransformerException;

fn settings(script: &str, quiet: bool) -> Settings {
    Settings::new(parse_commands(script).unwrap(), quiet)
}

fn run_script(script: &str, quiet: bool, input: &[&str]) -> String {
    let mut s = settings(script, quiet);
    let mut out = String::new();
    run(input.iter().map(|t| t.to_string()).collect(), &mut s, &mut out);
    out
}

#[test]
fn it_works() {
    let source: Vec<String> = (1..100).map(|i| i.to_string()).collect();
    let mut settings = Settings::new(parse_commands("/.{2}/d").unwrap(), false);

    let mut results = String::new();
    run(source, &mut settings, &mut results);
    assert_eq!(results, "1\n2\n3\n4\n5\n6\n7\n8\n9\n");
}

#[test]
fn it_works2() {
    let mut settings = Settings::new(parse_commands("$s/hello/world/").unwrap(), false);
    let mut results = String::new();
    run(Vec::new(), &mut settings, &mut results);
    assert_eq!(results, "");
}

#[test]
fn substitute_first_end_to_end() {
    assert_eq!(run_script("s/Hello/World/", false, &["Hello World, Hello World\n"]), "World World, Hello World\n");
}

#[test]
fn substitute_global_end_to_end() {
    assert_eq!(run_script("s/Hello/World/g", false, &["Hello World, Hello World\n"]), "World World, World World\n");
}

#[test]
fn quit_stops_before_printing_its_line() {
    let input: Vec<String> = (1..=1000).map(|i| i.to_string()).collect();
    let refs: Vec<&str> = input.iter().map(|s| s.as_str()).collect();
    assert_eq!(run_script("2q", false, &refs), "1\n");
}

#[test]
fn quiet_run_prints_only_explicit_prints() {
    assert_eq!(run_script("2p", true, &["a", "b", "c"]), "b\n");
    assert_eq!(run_script("2p", false, &["a", "b", "c"]), "a\nb\nb\nc\n");
}

#[test]
fn delete_does_not_skip_later_commands() {
    assert_eq!(run_script("d;p", false, &["a", "b"]), "");
    assert_eq!(run_script("p;d", false, &["a", "b"]), "a\nb\n");
}

#[test]
fn last_line_substitution() {
    assert_eq!(run_script("$s/x/y/", false, &["x", "x", "x"]), "x\nx\ny\n");
}

#[test]
fn range_of_regexes_end_to_end() {
    assert_eq!(run_script("/start/,/stop/d", false, &["a", "start", "b", "stop", "c"]), "a\nc\n");
}

#[test]
fn empty_script_copies_input() {
    assert_eq!(run_script("", false, &["a", "b\n"]), "a\nb\n");
}

#[test]
fn apply_commands_reports_quit() {
    let mut commands = parse_commands("p;q;p").unwrap();
    let mut line = Line::new(1, "x\n".to_string(), false);
    let mut out = String::new();
    assert_eq!(apply_commands(&mut line, &mut commands, &mut out), Err(TransformerException::Quit));
    assert_eq!(out, "x\n");
    assert_eq!(line.text, "x\n");
}

#[test]
fn process_line_reports_whether_to_go_on() {
    let mut s = settings("s/a/b/;2q", false);
    let mut out = String::new();
    assert!(s.process_line(Line::new(1, "a\n".to_string(), false), &mut out));
    assert!(!s.process_line(Line::new(2, "a\n".to_string(), false), &mut out));
    assert_eq!(out, "b\n");
}

#[test]
fn parse_errors() {
    assert_eq!(parse_commands("x").unwrap_err(), ParseError::UnknownCommand);
    assert_eq!(parse_commands("5").unwrap_err(), ParseError::UnknownCommand);
    assert_eq!(parse_commands(" p").unwrap_err(), ParseError::UnknownCommand);
    assert_eq!(parse_commands("/abc").unwrap_err(), ParseError::MalformedLocation);
    assert_eq!(parse_commands("1,p").unwrap_err(), ParseError::MalformedLocation);
    assert_eq!(parse_commands("99999999999999999999999p").unwrap_err(), ParseError::MalformedLocation);
    assert_eq!(parse_commands("s/a/b").unwrap_err(), ParseError::MalformedSubstitute);
    assert_eq!(parse_commands("s").unwrap_err(), ParseError::MalformedSubstitute);
    assert_eq!(parse_commands("/a(/p").unwrap_err(), ParseError::InvalidRegex);
    assert_eq!(parse_commands("s/a(/b/").unwrap_err(), ParseError::InvalidRegex);
}

#[test]
fn parse_counts_commands_and_separators() {
    assert_eq!(parse_commands("").unwrap().len(), 0);
    assert_eq!(parse_commands("p").unwrap().len(), 1);
    assert_eq!(parse_commands("p ; d  s/a/b/g;1,$p").unwrap().len(), 4);
    assert_eq!(parse_commands("pd").unwrap().len(), 2);
}

#[test]
fn reader_marks_only_the_final_line_as_last() {
    let mut reader = Reader::new();
    let items = vec![(1usize, "a\n".to_string()), (2, "b\n".to_string()), (3, "c\n".to_string())];
    let mut lines = Vec::new();
    for item in items.into_iter().map(Some).chain(std::iter::once(None)) {
        if let Some(line) = reader.next(item) {
            lines.push((line.line_number, line.text, line.is_last_line));
        }
    }
    assert!(reader.is_exhausted());
    assert_eq!(
        lines,
        vec![(1, "a\n".to_string(), false), (2, "b\n".to_string(), false), (3, "c\n".to_string(), true)]
    );
}

#[test]
fn reader_on_empty_source() {
    let mut reader = Reader::new();
    assert!(!reader.is_exhausted());
    assert!(reader.next(None).is_none());
    assert!(reader.is_exhausted());
    assert!(reader.next(None).is_none());
}

#[test]
fn buffer_accessors() {
    let first = Buffer::FirstLine;
    assert!(first.get_inner().is_none());
    assert!(first.into_inner().is_none());
    let held = Buffer::Continue(Some((4, "x".to_string())));
    assert_eq!(held.get_inner(), Some(&(4, "x".to_string())));
    assert_eq!(held.into_inner(), Some((4, "x".to_string())));
}

#[test]
fn general_reader_numbers_and_ends_lines() {
    let mut r = GeneralReader::new();
    assert_eq!(r.next_line("a".to_string()), (1, "a\n".to_string()));
    assert_eq!(r.next_line("b\n".to_string()), (2, "b\n".to_string()));
    assert_eq!(r.next_line(String::new()), (3, "\n".to_string()));
}

#[test]
fn stdin_reader_stops_on_empty_read() {
    let mut r = StdinReader::new();
    assert_eq!(r.next_line("a\n".to_string()), Some((1, "a\n".to_string())));
    assert_eq!(r.next_line("b".to_string()), Some((2, "b".to_string())));
    assert_eq!(r.next_line(String::new()), None);
}
