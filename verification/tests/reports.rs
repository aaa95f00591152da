use lintparser::{Check, CheckError, Note, ProblemDescription, parse_check_output};

#[test]
fn it_works() {
}

#[test]
fn single_warning_with_two_trailing_lines() {
    let input = "src/lib.rs:5:1: 5:10 warning: unused variable: `x`\nblah blah\nmore blah";
    let report = parse_check_output(input).unwrap();
    match report {
        Check::Warning(problems) => {
            assert_eq!(problems.len(), 1);
            assert_eq!(problems[0].filepath, "src/lib.rs");
            assert_eq!(problems[0].message.start_line, 5);
            assert_eq!(problems[0].message.start_col, 1);
            assert_eq!(problems[0].message.end_line, 5);
            assert_eq!(problems[0].message.end_col, 10);
            assert_eq!(problems[0].message.message, "unused variable: `x`");
        },
        other => panic!("expected a warning report, got {:?}", other),
    }
}

#[test]
fn help_attaches_to_preceding_warning() {
    let input = "src/lib.rs:5:1: 5:10 warning: unused variable: `x`\n\
        src/lib.rs:5:1: 5:10 help: consider removing it";
    let report = parse_check_output(input).unwrap();
    match report {
        Check::Warning(problems) => {
            assert_eq!(problems.len(), 1);
            assert_eq!(problems[0].help.len(), 1);
            assert_eq!(problems[0].help[0].message, "consider removing it");
            assert!(problems[0].notes.is_empty());
        },
        other => panic!("expected a warning report, got {:?}", other),
    }
}

#[test]
fn note_attaches_to_preceding_error() {
    let input = "src/lib.rs:3:5: 3:7 error: mismatched types\n\
        src/lib.rs:3:5: 3:7 note: expected `u8`";
    let report = parse_check_output(input).unwrap();
    match report {
        Check::Error(problems) => {
            assert_eq!(problems.len(), 1);
            assert_eq!(problems[0].notes.len(), 1);
            assert_eq!(problems[0].notes[0].message, "expected `u8`");
        },
        other => panic!("expected an error report, got {:?}", other),
    }
}

#[test]
fn error_and_warning_keep_encounter_order() {
    let input = "src/lib.rs:3:5: 3:7 error: mismatched types\n\
        src/lib.rs:5:1: 5:10 warning: unused variable: `x`";
    let report = parse_check_output(input).unwrap();
    match report {
        Check::Error(problems) => {
            assert_eq!(problems.len(), 2);
            assert_eq!(problems[0].message.message, "mismatched types");
            assert_eq!(problems[1].message.message, "unused variable: `x`");
        },
        other => panic!("expected an error report, got {:?}", other),
    }
}

#[test]
fn warning_and_error_keep_encounter_order() {
    let input = "src/lib.rs:5:1: 5:10 warning: unused variable: `x`\n\
        src/lib.rs:3:5: 3:7 error: mismatched types";
    let report = parse_check_output(input).unwrap();
    match report {
        Check::Error(problems) => {
            assert_eq!(problems.len(), 2);
            assert_eq!(problems[0].message.message, "unused variable: `x`");
            assert_eq!(problems[1].message.message, "mismatched types");
        },
        other => panic!("expected an error report, got {:?}", other),
    }
}

#[test]
fn empty_input_is_perfect() {
    let report = parse_check_output("").unwrap();
    match report {
        Check::Perfect => {},
        other => panic!("expected a perfect report, got {:?}", other),
    }
}

#[test]
fn nothing_after_sentinel_is_parsed() {
    let input = "src/lib.rs:3:5: 3:7 error: mismatched types\n\
        error: aborting due to previous error\n\
        src/lib.rs:9:1: 9:2 warning: never seen\n\
        complete garbage that parses as nothing";
    let report = parse_check_output(input).unwrap();
    match report {
        Check::Error(problems) => {
            assert_eq!(problems.len(), 1);
            assert_eq!(problems[0].message.message, "mismatched types");
        },
        other => panic!("expected an error report, got {:?}", other),
    }
}

#[test]
fn sentinel_as_first_line_is_perfect() {
    let input = "error: aborting due to previous error\nsrc/lib.rs:9:1: 9:2 warning: never";
    let report = parse_check_output(input).unwrap();
    assert!(matches!(report, Check::Perfect));
}

#[test]
fn help_without_owner_fails() {
    let input = "src/lib.rs:5:1: 5:10 help: try this";
    let r = parse_check_output(input);
    assert_eq!(r.unwrap_err(), CheckError::AttachmentWithoutOwner);
}

#[test]
fn note_without_owner_fails() {
    let input = "src/lib.rs:5:1: 5:10 note: about this";
    let r = parse_check_output(input);
    assert_eq!(r.unwrap_err(), CheckError::AttachmentWithoutOwner);
}

#[test]
fn malformed_header_fails() {
    let r = parse_check_output("this is not a diagnostic at all");
    assert_eq!(r.unwrap_err(), CheckError::UnparseableLine);
}

#[test]
fn continuation_without_whitespace_joins_message() {
    let input = "src/lib.rs:3:5: 3:7 error: first\nsecondline";
    let report = parse_check_output(input).unwrap();
    match report {
        Check::Error(problems) => {
            assert_eq!(problems.len(), 1);
            assert_eq!(problems[0].message.message, "first\nsecondline");
        },
        other => panic!("expected an error report, got {:?}", other),
    }
}

#[test]
fn line_after_visual_aid_stays_decorative() {
    let input = "src/lib.rs:3:5: 3:7 error: first\n    ^~~\nsecondline";
    let report = parse_check_output(input).unwrap();
    match report {
        Check::Error(problems) => {
            assert_eq!(problems.len(), 1);
            assert_eq!(problems[0].message.message, "first");
        },
        other => panic!("expected an error report, got {:?}", other),
    }
}

#[test]
fn only_first_line_after_visual_run_stays_decorative() {
    let input = "src/lib.rs:3:5: 3:7 error: first\n  ^~~\n  ^~~\nplainone\nplaintwo";
    let report = parse_check_output(input).unwrap();
    match report {
        Check::Error(problems) => {
            assert_eq!(problems.len(), 1);
            assert_eq!(problems[0].message.message, "first\nplaintwo");
        },
        other => panic!("expected an error report, got {:?}", other),
    }
}

#[test]
fn crlf_line_endings_are_accepted() {
    let input = "src/lib.rs:5:1: 5:10 warning: unused variable: `x`\r\nblah blah\r\n";
    let report = parse_check_output(input).unwrap();
    match report {
        Check::Warning(problems) => {
            assert_eq!(problems.len(), 1);
            assert_eq!(problems[0].message.message, "unused variable: `x`");
        },
        other => panic!("expected a warning report, got {:?}", other),
    }
}

#[test]
fn parsing_twice_yields_equal_reports() {
    let input = "src/lib.rs:3:5: 3:7 error: mismatched types\n\
        src/lib.rs:3:5: 3:7 note: expected `u8`\n\
        src/lib.rs:5:1: 5:10 warning: unused variable: `x`";
    let first = parse_check_output(input);
    let second = parse_check_output(input);
    assert_eq!(first, second);
}

#[test]
fn note_renders_as_span_and_message() {
    let note = Note::new(5, 1, 5, 10, String::from("unused variable: `x`"));
    assert_eq!(note.render(), "5:1: 5:10: unused variable: `x`");
}

#[test]
fn note_new_keeps_fields() {
    let note = Note::new(12, 34, 56, 78, String::from("m"));
    assert_eq!(note.start_line, 12);
    assert_eq!(note.start_col, 34);
    assert_eq!(note.end_line, 56);
    assert_eq!(note.end_col, 78);
    assert_eq!(note.message, "m");
}

#[test]
fn problem_renders_with_help_and_notes() {
    let help = vec![Note::new(1, 2, 3, 4, String::from("h"))];
    let notes = vec![Note::new(5, 6, 7, 8, String::from("n"))];
    let problem = ProblemDescription::new(
        String::from("src/lib.rs"),
        5,
        1,
        5,
        10,
        String::from("unused"),
        help,
        notes,
    );
    assert_eq!(
        problem.render(),
        "src/lib.rs:5:1: 5:10: unused (help: 1:2: 3:4: h) (note: 5:6: 7:8: n)"
    );
}

#[test]
fn problem_new_keeps_fields() {
    let problem = ProblemDescription::new(
        String::from("a.rs"),
        1,
        2,
        3,
        4,
        String::from("msg"),
        Vec::new(),
        Vec::new(),
    );
    assert_eq!(problem.filepath, "a.rs");
    assert_eq!(problem.message.message, "msg");
    assert!(problem.help.is_empty());
    assert!(problem.notes.is_empty());
}

#[test]
fn multi_digit_coordinates_render_back() {
    let note = Note::new(120, 40, 1203, 0, String::from("wide"));
    assert_eq!(note.render(), "120:40: 1203:0: wide");
}
