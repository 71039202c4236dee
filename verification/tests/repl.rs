use exprcalc::repl::{command_hints, starts_with, CommandHint, CommandHinter};

fn chars(text: &str) -> Vec<char> {
    text.chars().collect()
}

#[test]
fn new_hint_shows_its_text_and_completes_the_prefix() {
    let hint = CommandHint::new("defined", "def");
    assert_eq!(hint.display(), "defined");
    assert_eq!(hint.completion(), Some("def"));
}

#[test]
fn hint_with_empty_prefix_completes_nothing() {
    let hint = CommandHint::new("exit", "");
    assert_eq!(hint.display(), "exit");
    assert_eq!(hint.completion(), None);
}

#[test]
fn suffix_strips_text_and_completion() {
    let hint = CommandHint::new("defined", "defined");
    let rest = hint.suffix(3);
    assert_eq!(rest.display(), "ined");
    assert_eq!(rest.completion(), Some("ined"));
    assert_eq!(hint.suffix(0), hint);
    let none = hint.suffix(7);
    assert_eq!(none.display(), "");
    assert_eq!(none.completion(), None);
}

#[test]
fn suffix_beyond_the_completion_completes_nothing() {
    let hint = CommandHint::new("defined", "de");
    let rest = hint.suffix(4);
    assert_eq!(rest.display(), "ned");
    assert_eq!(rest.completion(), None);
    let part = hint.suffix(1);
    assert_eq!(part.display(), "efined");
    assert_eq!(part.completion(), Some("e"));
}

#[test]
fn hints_count_characters() {
    let hint = CommandHint::new("héllo", "hé");
    assert_eq!(hint.completion(), Some("hé"));
    let rest = hint.suffix(2);
    assert_eq!(rest.display(), "llo");
    assert_eq!(rest.completion(), None);
}

#[test]
fn command_hints_are_exit_and_defined() {
    let hints = command_hints();
    assert_eq!(hints.len(), 2);
    assert_eq!(hints[0], CommandHint::new("exit", "exit"));
    assert_eq!(hints[1], CommandHint::new("defined", "defined"));
    assert_eq!(hints[0].completion(), Some("exit"));
    assert_eq!(hints[1].completion(), Some("defined"));
}

#[test]
fn starts_with_compares_prefixes() {
    assert!(starts_with(&chars("defined"), &chars("def")));
    assert!(starts_with(&chars("defined"), &chars("")));
    assert!(starts_with(&chars("defined"), &chars("defined")));
    assert!(!starts_with(&chars("defined"), &chars("defined ")));
    assert!(!starts_with(&chars("defined"), &chars("dex")));
    assert!(!starts_with(&chars(""), &chars("d")));
}

#[test]
fn hint_is_the_rest_of_the_command() {
    let hinter = CommandHinter { hints: command_hints() };
    let hint = hinter.hint("ex", 2).unwrap();
    assert_eq!(hint.display(), "it");
    assert_eq!(hint.completion(), Some("it"));
    let hint = hinter.hint("d", 1).unwrap();
    assert_eq!(hint.display(), "efined");
    assert_eq!(hint.completion(), Some("efined"));
}

#[test]
fn whole_command_leaves_an_empty_hint() {
    let hinter = CommandHinter { hints: command_hints() };
    let hint = hinter.hint("exit", 4).unwrap();
    assert_eq!(hint.display(), "");
    assert_eq!(hint.completion(), None);
}

#[test]
fn no_hint_for_an_empty_line_or_inside_the_line() {
    let hinter = CommandHinter { hints: command_hints() };
    assert_eq!(hinter.hint("", 0), None);
    assert_eq!(hinter.hint("ex", 1), None);
    assert_eq!(hinter.hint("ex", 0), None);
}

#[test]
fn no_hint_where_no_command_starts_with_the_line() {
    let hinter = CommandHinter { hints: command_hints() };
    assert_eq!(hinter.hint("2+3", 3), None);
    assert_eq!(hinter.hint("exit ", 5), None);
    assert_eq!(hinter.hint("E", 1), None);
    let none = CommandHinter { hints: vec![] };
    assert_eq!(none.hint("e", 1), None);
}

#[test]
fn first_hint_that_fits_is_taken() {
    let hinter = CommandHinter {
        hints: vec![
            CommandHint::new("help", "help"),
            CommandHint::new("hello", "he"),
            CommandHint::new("history", "history"),
        ],
    };
    assert_eq!(hinter.hint("he", 2).unwrap().display(), "lp");
    assert_eq!(hinter.hint("hel", 3).unwrap().display(), "p");
    assert_eq!(hinter.hint("hell", 4).unwrap().display(), "o");
    assert_eq!(hinter.hint("hell", 4).unwrap().completion(), None);
    assert_eq!(hinter.hint("hi", 2).unwrap().display(), "story");
}

#[test]
fn position_counts_bytes_and_hint_counts_characters() {
    let hinter = CommandHinter { hints: vec![CommandHint::new("héllo", "héllo")] };
    assert_eq!(hinter.hint("hé", 2), None);
    let hint = hinter.hint("hé", 3).unwrap();
    assert_eq!(hint.display(), "llo");
    assert_eq!(hint.completion(), Some("llo"));
}

#[test]
fn highlight_hint_dims_the_text() {
    assert_eq!(CommandHinter::highlight_hint("it"), "\x1b[2mit\x1b[m");
    assert_eq!(CommandHinter::highlight_hint(""), "\x1b[2m\x1b[m");
}
