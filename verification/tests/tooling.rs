use nimble_rs::tooling::{bind_refused, contains, count_matches, pair_passed, parse_command, XtaskCommand};

#[test]
fn commands() {
    assert_eq!(parse_command(Some("e2e")), XtaskCommand::E2e);
    assert_eq!(parse_command(Some("gen")), XtaskCommand::Gen);
    assert_eq!(parse_command(Some("e2")), XtaskCommand::Usage);
    assert_eq!(parse_command(None), XtaskCommand::Usage);
}

#[test]
fn substring_search() {
    assert!(contains("error: os error 1", "os error"));
    assert!(!contains("os erro", "os error"));
    assert!(contains("abc", ""));
    assert!(!contains("", "a"));
}

#[test]
fn match_counts_are_non_overlapping() {
    assert_eq!(count_matches("aaaa", "aa"), 2);
    assert_eq!(count_matches("echo received\necho received\n", "echo received"), 2);
    assert_eq!(count_matches("abc", "x"), 0);
    assert_eq!(count_matches("abc", ""), 4);
}

#[test]
fn bind_probe_verdicts() {
    assert!(bind_refused(false, "Error: Operation not permitted (os error 1)"));
    assert!(bind_refused(false, "Io(os error 19)"));
    assert!(!bind_refused(true, "Operation not permitted"));
    assert!(!bind_refused(false, "scanning..."));
}

#[test]
fn pair_verdicts() {
    assert!(pair_passed(3, 3, 3));
    assert!(pair_passed(5, 4, 3));
    assert!(!pair_passed(2, 5, 3));
    assert!(!pair_passed(5, 2, 3));
}
