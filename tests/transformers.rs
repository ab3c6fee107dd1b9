use sed::pattern::Pattern;
use sed::transformers::{Delete, Print, Quit, Substitute, Transformer, TransformerException};

#[test]
fn test_delete() {
    let mut text = String::from("Hello world");
    let mut output = String::new();

    assert_eq!(Delete.apply(&mut text, &mut output), Ok(()));
    assert_eq!(output, "");
    assert_eq!(text, "");
}

#[test]
fn test_print() {
    let mut text = String::from("Hello world");
    let mut output = String::new();

    assert_eq!(Print.apply(&mut text, &mut output), Ok(()));
    assert_eq!(output, text);
    assert_eq!(text, "Hello world");
}

#[test]
fn test_quit() {
    let mut text = String::from("Hello world");
    let mut output = String::new();

    assert_eq!(Quit.apply(&mut text, &mut output), Err(TransformerException::Quit));
    assert_eq!(output, "");
    assert_eq!(text, "Hello world");
}

#[test]
fn test_substitute_basic() {
    let mut text = String::from("Hello World, Hello World");
    let mut output = String::new();
    let substitute = Substitute::new(Pattern::new("Hello").unwrap(), "World".to_string(), false);

    assert_eq!(substitute.apply(&mut text, &mut output), Ok(()));
    assert_eq!(output, "");
    assert_eq!(text, "World World, Hello World");
}

#[test]
fn test_substitute_basic_global() {
    let mut text = String::from("Hello World, Hello World");
    let mut output = String::new();
    let substitute = Substitute::new(Pattern::new("Hello").unwrap(), "World".to_string(), true);

    assert_eq!(substitute.apply(&mut text, &mut output), Ok(()));
    assert_eq!(output, "");
    assert_eq!(text, "World World, World World");
}

#[test]
fn test_substitute_no_match() {
    let mut text = String::from("Hello");
    let mut output = String::new();
    let substitute = Substitute::new(Pattern::new("Goodbye").unwrap(), "Planet".to_string(), false);

    assert_eq!(substitute.apply(&mut text, &mut output), Ok(()));
    assert_eq!(output, "");
    assert_eq!(text, "Hello");
}

#[test]
fn delete_empties_any_text_and_keeps_side_output() {
    for t in ["", "a", "Hello world\n", "ünïcödé\n"] {
        let mut text = t.to_string();
        let mut output = String::from("before");
        assert_eq!(Delete.apply(&mut text, &mut output), Ok(()));
        assert_eq!(text, "");
        assert_eq!(output, "before");
    }
}

#[test]
fn print_appends_exactly_the_text() {
    for t in ["", "a", "Hello world\n", "ünïcödé\n"] {
        let mut text = t.to_string();
        let mut output = String::from(">");
        assert_eq!(Print.apply(&mut text, &mut output), Ok(()));
        assert_eq!(text, t);
        assert_eq!(output, format!(">{}", t));
    }
}

#[test]
fn quit_keeps_any_text() {
    for t in ["", "x\n"] {
        let mut text = t.to_string();
        let mut output = String::new();
        assert_eq!(Quit.apply(&mut text, &mut output), Err(TransformerException::Quit));
        assert_eq!(text, t);
        assert_eq!(output, "");
    }
}

#[test]
fn substitute_expands_capture_groups() {
    let substitute = Substitute::new(Pattern::new("(a)(b)").unwrap(), "$2$1".to_string(), true);
    assert_eq!(substitute.substituted("abab"), "baba");
}

#[test]
fn substitute_replaces_non_overlapping_matches() {
    let substitute = Substitute::new(Pattern::new("aa").unwrap(), "b".to_string(), true);
    assert_eq!(substitute.substituted("aaaaa"), "bba");
    let first = Substitute::new(Pattern::new("aa").unwrap(), "b".to_string(), false);
    assert_eq!(first.substituted("aaaaa"), "baaa");
}

#[test]
fn pattern_reports_its_source_and_refuses_bad_regex() {
    let p = Pattern::new("a+b").unwrap();
    assert_eq!(p.as_str(), "a+b");
    assert!(p.is_match("xaab"));
    assert!(!p.is_match("xb"));
    assert!(Pattern::new("a(").is_none());
    assert_eq!(p.replace_first("ab ab", "c"), "c ab");
    assert_eq!(p.replace_all("ab ab", "c"), "c c");
}
