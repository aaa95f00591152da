use lintparser::{CheckError, Level, line_is_visual_aid, parse_check_line};

#[test]
fn parses_warning_header() {
    let (level, problem) =
        parse_check_line("src/lib.rs:5:1: 5:10 warning: unused variable: `x`").unwrap();
    assert!(matches!(level, Level::Warning));
    assert_eq!(problem.filepath, "src/lib.rs");
    assert_eq!(problem.message.start_line, 5);
    assert_eq!(problem.message.start_col, 1);
    assert_eq!(problem.message.end_line, 5);
    assert_eq!(problem.message.end_col, 10);
    assert_eq!(problem.message.message, "unused variable: `x`");
    assert!(problem.help.is_empty());
    assert!(problem.notes.is_empty());
}

#[test]
fn parses_error_help_and_note_levels() {
    let (level, _) = parse_check_line("a.rs:1:2: 3:4 error: boom").unwrap();
    assert!(matches!(level, Level::Error));
    let (level, _) = parse_check_line("a.rs:1:2: 3:4 help: try this").unwrap();
    assert!(matches!(level, Level::Help));
    let (level, _) = parse_check_line("a.rs:1:2: 3:4 note: see here").unwrap();
    assert!(matches!(level, Level::Note));
}

#[test]
fn parses_with_spread_whitespace() {
    let (_, problem) = parse_check_line("a.rs:1:2:  3:  4   warning:   spaced out").unwrap();
    assert_eq!(problem.message.end_line, 3);
    assert_eq!(problem.message.end_col, 4);
    assert_eq!(problem.message.message, "spaced out");
}

#[test]
fn rejects_unknown_level() {
    let r = parse_check_line("a.rs:1:2: 3:4 fatal: boom");
    assert_eq!(r.unwrap_err(), CheckError::UnparseableLine);
}

#[test]
fn rejects_bad_numeric_field() {
    let r = parse_check_line("a.rs:12x:2: 3:4 warning: m");
    assert_eq!(r.unwrap_err(), CheckError::UnparseableLine);
}

#[test]
fn rejects_oversized_numeric_field() {
    let r = parse_check_line("a.rs:99999999999999999999999999:2: 3:4 warning: m");
    assert_eq!(r.unwrap_err(), CheckError::UnparseableLine);
}

#[test]
fn rejects_empty_filepath() {
    let r = parse_check_line(":1:2: 3:4 warning: m");
    assert_eq!(r.unwrap_err(), CheckError::UnparseableLine);
}

#[test]
fn rejects_exhausted_line() {
    assert_eq!(parse_check_line("").unwrap_err(), CheckError::UnparseableLine);
    assert_eq!(parse_check_line("no colons here").unwrap_err(), CheckError::UnparseableLine);
    assert_eq!(parse_check_line("a.rs:1:2").unwrap_err(), CheckError::UnparseableLine);
    assert_eq!(
        parse_check_line("a.rs:1:2: 3:4 warning:").unwrap_err(),
        CheckError::UnparseableLine
    );
}

#[test]
fn source_excerpt_is_visual_aid() {
    assert!(line_is_visual_aid("src/lib.rs:5 let x = 3;"));
}

#[test]
fn caret_line_is_visual_aid() {
    assert!(line_is_visual_aid("             ^~~~~~~~~"));
}

#[test]
fn two_colons_before_whitespace_is_visual_aid() {
    assert!(line_is_visual_aid("a:b: c"));
}

#[test]
fn continuation_header_is_not_visual_aid() {
    assert!(!line_is_visual_aid("src/lib.rs:5:1: 5:10 warning: unused"));
}

#[test]
fn fourth_colon_before_whitespace_is_not_visual_aid() {
    assert!(!line_is_visual_aid("a:b:c:d: e"));
}

#[test]
fn line_without_whitespace_is_not_visual_aid() {
    assert!(!line_is_visual_aid("nowhitespace"));
    assert!(!line_is_visual_aid("a:b:c"));
    assert!(!line_is_visual_aid(""));
}
