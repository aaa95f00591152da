//! The diagnostic aggregator: drives the stream of lines through the line
//! parser and the continuation classifier, attaches help and note spans to
//! the problem opened most recently, and computes the overall verdict.
//!
//! One outer step per diagnostic: parse the header line, consume the
//! continuation lines that belong to it, then dispatch on its severity.
//! A warning's first two continuation lines are dropped unconditionally
//! (the fixed source/pointer pair the build tool emits), unless the next
//! header or the terminal marker arrives first. A non-visual line that
//! starts with the current problem's filepath is the next header; one that
//! immediately follows a visual-aid line is treated as still decorative;
//! any other non-visual line is appended to the open message. The cursor
//! advances on every consumed line. The exact terminal marker line stops
//! all parsing, wherever it appears.

use vstd::prelude::*;
use crate::report::{
    Check, CheckError, CheckV, NoteV, ProblemDescription, ProblemV, problem_views, note_views,
};
use crate::parse::{Level, is_visual_aid_spec, parse_line_spec, parse_check_line,
    line_is_visual_aid};
use crate::text::{is_prefix, str_eq, str_starts_with};

verus! {

/// The terminal marker: the exact line after which nothing is parsed.
pub open spec fn sentinel() -> Seq<char> {
    "error: aborting due to previous error"@
}

/// Strips one trailing carriage return, as a line ending in `"\r\n"`
/// leaves one on the piece before the newline.
pub open spec fn strip_cr(s: Seq<char>) -> Seq<char> {
    if s.len() > 0 && s.last() == '\r' {
        s.drop_last()
    } else {
        s
    }
}

/// Splitting the buffer into lines: pieces end at `'\n'` (a preceding
/// `'\r'` is dropped); a final piece without a newline is kept as it is;
/// a trailing newline produces no empty final piece.
pub open spec fn split_rec(t: Seq<char>, i: int, start: int, acc: Seq<Seq<char>>)
    -> Seq<Seq<char>>
    decreases t.len() - i,
{
    if i < 0 || i >= t.len() {
        if start >= t.len() {
            acc
        } else {
            acc.push(t.subrange(start, t.len() as int))
        }
    } else if t[i] == '\n' {
        split_rec(t, i + 1, i + 1, acc.push(strip_cr(t.subrange(start, i))))
    } else {
        split_rec(t, i + 1, start, acc)
    }
}

/// The lines of the whole buffer.
pub open spec fn split_lines_spec(t: Seq<char>) -> Seq<Seq<char>> {
    split_rec(t, 0, 0, Seq::empty())
}

/// The views of a sequence of string slices.
pub open spec fn views_of(v: Seq<&str>) -> Seq<Seq<char>> {
    v.map_values(|x: &str| x@)
}

/// Splits the buffer into its lines.
pub fn split_lines(text: &str) -> (r: Vec<&str>)
    ensures
        views_of(r@) == split_lines_spec(text@),
{
    let n = text.unicode_len();
    let mut out: Vec<&str> = Vec::new();
    let mut start: usize = 0;
    let mut i: usize = 0;
    proof {
        assert(views_of(Seq::<&str>::empty()) =~= Seq::<Seq<char>>::empty());
    }
    while i < n
        invariant
            0 <= start as int <= i as int <= n,
            n == text@.len(),
            split_rec(text@, i as int, start as int, views_of(out@)) == split_lines_spec(text@),
        decreases n - i,
    {
        if text.get_char(i) == '\n' {
            let ghost prev = out@;
            let piece = if i > start && text.get_char(i - 1) == '\r' {
                text.substring_char(start, i - 1)
            } else {
                text.substring_char(start, i)
            };
            proof {
                if i > start && text@[i as int - 1] == '\r' {
                    assert(text@.subrange(start as int, i as int).drop_last()
                        =~= text@.subrange(start as int, i as int - 1));
                }
                assert(piece@ == strip_cr(text@.subrange(start as int, i as int)));
            }
            out.push(piece);
            proof {
                assert(views_of(out@) =~= views_of(prev).push(piece@));
            }
            start = i + 1;
        }
        i = i + 1;
    }
    if start < n {
        let ghost prev = out@;
        let piece = text.substring_char(start, n);
        out.push(piece);
        proof {
            assert(views_of(out@) =~= views_of(prev).push(piece@));
        }
    }
    out
}

/// One inner scan over the continuation lines of an open diagnostic,
/// beginning at `j` with `skip` lines still to drop unconditionally and
/// the message text collected so far. Yields the index of the line that
/// ended the scan (the next header, the terminal marker, or one past the
/// end), the final message, and whether the terminal marker ended it.
pub open spec fn scan_cont(lines: Seq<Seq<char>>, j: int, skip: int, was_visual: bool,
    filepath: Seq<char>, msg: Seq<char>) -> (int, Seq<char>, bool)
    decreases lines.len() - j,
{
    if j < 0 || j >= lines.len() {
        (j, msg, false)
    } else {
        let l = lines[j];
        if l == sentinel() {
            (j, msg, true)
        } else {
            let v = is_visual_aid_spec(l);
            if !v && is_prefix(filepath, l) {
                (j, msg, false)
            } else if skip > 0 {
                scan_cont(lines, j + 1, skip - 1, v, filepath, msg)
            } else if !v && !was_visual {
                scan_cont(lines, j + 1, 0, v, filepath, msg + seq!['\n'] + l)
            } else {
                scan_cont(lines, j + 1, 0, v, filepath, msg)
            }
        }
    }
}

/// The scan never moves backwards nor past the end.
pub proof fn lemma_scan_cont_bounds(lines: Seq<Seq<char>>, j: int, skip: int,
    was_visual: bool, filepath: Seq<char>, msg: Seq<char>)
    requires
        0 <= j <= lines.len(),
    ensures
        j <= scan_cont(lines, j, skip, was_visual, filepath, msg).0 <= lines.len(),
    decreases lines.len() - j,
{
    if j < lines.len() {
        let l = lines[j];
        if l == sentinel() {
        } else {
            let v = is_visual_aid_spec(l);
            if !v && is_prefix(filepath, l) {
            } else if skip > 0 {
                lemma_scan_cont_bounds(lines, j + 1, skip - 1, v, filepath, msg);
            } else if !v && !was_visual {
                lemma_scan_cont_bounds(lines, j + 1, 0, v, filepath, msg + seq!['\n'] + l);
            } else {
                lemma_scan_cont_bounds(lines, j + 1, 0, v, filepath, msg);
            }
        }
    }
}

/// Appends an attachment span to the most recently opened problem.
pub open spec fn attach_to_last(problems: Seq<ProblemV>, lv: Level, note: NoteV)
    -> Seq<ProblemV>
    recommends
        problems.len() > 0,
{
    let last = problems.len() - 1;
    let p = problems[last];
    let p2 = if lv == Level::Help {
        ProblemV { help: p.help.push(note), ..p }
    } else {
        ProblemV { notes: p.notes.push(note), ..p }
    };
    problems.update(last, p2)
}

/// The aggregation from line `i` on, carrying the problems collected so
/// far and whether an error-severity diagnostic has been seen. Stops at
/// the end of the stream or at the terminal marker; fails on a malformed
/// header line and on an attachment with no owning problem.
pub open spec fn agg_from(lines: Seq<Seq<char>>, i: int, problems: Seq<ProblemV>,
    saw_error: bool) -> Result<(Seq<ProblemV>, bool), CheckError>
    decreases lines.len() - i via agg_from_dec
{
    if i < 0 || i >= lines.len() {
        Ok((problems, saw_error))
    } else if lines[i] == sentinel() {
        Ok((problems, saw_error))
    } else {
        match parse_line_spec(lines[i]) {
            None => Err(CheckError::UnparseableLine),
            Some(pp) => {
                let sc = scan_cont(lines, i + 1, if pp.0 == Level::Warning {
                    2int
                } else {
                    0int
                }, false, pp.1.filepath, pp.1.message.message);
                let p2 = ProblemV {
                    message: NoteV { message: sc.1, ..pp.1.message },
                    ..pp.1
                };
                match pp.0 {
                    Level::Error => if sc.2 {
                        Ok((problems.push(p2), true))
                    } else {
                        agg_from(lines, sc.0, problems.push(p2), true)
                    },
                    Level::Warning => if sc.2 {
                        Ok((problems.push(p2), saw_error))
                    } else {
                        agg_from(lines, sc.0, problems.push(p2), saw_error)
                    },
                    _ => if problems.len() == 0 {
                        Err(CheckError::AttachmentWithoutOwner)
                    } else {
                        let probs2 = attach_to_last(problems, pp.0, p2.message);
                        if sc.2 {
                            Ok((probs2, saw_error))
                        } else {
                            agg_from(lines, sc.0, probs2, saw_error)
                        }
                    },
                }
            },
        }
    }
}

#[via_fn]
proof fn agg_from_dec(lines: Seq<Seq<char>>, i: int, problems: Seq<ProblemV>,
    saw_error: bool) {
    if 0 <= i < lines.len() && lines[i] != sentinel() {
        match parse_line_spec(lines[i]) {
            None => {},
            Some(pp) => {
                lemma_scan_cont_bounds(lines, i + 1, if pp.0 == Level::Warning {
                    2int
                } else {
                    0int
                }, false, pp.1.filepath, pp.1.message.message);
            },
        }
    }
}

/// The verdict over the collected problems: errors dominate, warnings
/// need a non-empty list, and a clean run is perfect.
pub open spec fn report_of(problems: Seq<ProblemV>, saw_error: bool) -> CheckV {
    if saw_error {
        CheckV::Error(problems)
    } else if problems.len() == 0 {
        CheckV::Perfect
    } else {
        CheckV::Warning(problems)
    }
}

/// What parsing a whole buffer yields.
pub open spec fn check_output_spec(t: Seq<char>) -> Result<CheckV, CheckError> {
    match agg_from(split_lines_spec(t), 0, Seq::empty(), false) {
        Ok(pair) => Ok(report_of(pair.0, pair.1)),
        Err(e) => Err(e),
    }
}

/// Parses the complete captured output of one check run into a report.
#[verifier::rlimit(100)]
pub fn parse_check_output(text: &str) -> (r: Result<Check, CheckError>)
    ensures
        match r {
            Ok(c) => check_output_spec(text@) == Ok::<CheckV, CheckError>(c@),
            Err(e) => check_output_spec(text@) == Err::<CheckV, CheckError>(e),
        },
{
    let lines = split_lines(text);
    let ghost lsv = split_lines_spec(text@);
    let n = lines.len();
    let mut problems: Vec<ProblemDescription> = Vec::new();
    let mut saw_error = false;
    let mut i: usize = 0;
    let mut done = false;
    proof {
        assert(problem_views(Seq::<ProblemDescription>::empty()) =~= Seq::<ProblemV>::empty());
    }
    while i < n && !done
        invariant
            0 <= i as int <= n,
            n == lsv.len(),
            n == lines@.len(),
            views_of(lines@) == lsv,
            lsv == split_lines_spec(text@),
            !done ==> agg_from(lsv, 0, Seq::empty(), false)
                == agg_from(lsv, i as int, problem_views(problems@), saw_error),
            done ==> agg_from(lsv, 0, Seq::empty(), false)
                == Ok::<(Seq<ProblemV>, bool), CheckError>((problem_views(problems@),
                    saw_error)),
        decreases n - i + (if done { 0int } else { 1int }),
    {
        let line = lines[i];
        proof {
            assert(lsv[i as int] == line@);
        }
        if str_eq(line, "error: aborting due to previous error") {
            proof {
                assert(agg_from(lsv, i as int, problem_views(problems@), saw_error)
                    == Ok::<(Seq<ProblemV>, bool), CheckError>((problem_views(problems@),
                        saw_error)));
            }
            done = true;
        } else {
            match parse_check_line(line) {
                Err(_) => {
                    proof {
                        assert(agg_from(lsv, i as int, problem_views(problems@), saw_error)
                            == Err::<(Seq<ProblemV>, bool), CheckError>(
                                CheckError::UnparseableLine));
                    }
                    return Err(CheckError::UnparseableLine);
                },
                Ok((level, mut problem)) => {
                    let ghost p0 = problem@;
                    let mut skip: usize = if level == Level::Warning {
                        2
                    } else {
                        0
                    };
                    let ghost skip0 = skip as int;
                    let mut j = i + 1;
                    let mut was_visual = false;
                    let mut stopped = false;
                    let mut halt = false;
                    while j < n && !stopped
                        invariant
                            i as int + 1 <= j as int <= n,
                            n == lsv.len(),
                            n == lines@.len(),
                            views_of(lines@) == lsv,
                            problem@ == (ProblemV {
                                message: NoteV {
                                    message: problem@.message.message,
                                    ..p0.message
                                },
                                ..p0
                            }),
                            !stopped ==> !halt,
                            !stopped ==> scan_cont(lsv, i as int + 1, skip0, false,
                                p0.filepath, p0.message.message)
                                == scan_cont(lsv, j as int, skip as int, was_visual,
                                    p0.filepath, problem@.message.message),
                            stopped ==> scan_cont(lsv, i as int + 1, skip0, false,
                                p0.filepath, p0.message.message)
                                == (j as int, problem@.message.message, halt),
                        decreases n - j + (if stopped { 0int } else { 1int }),
                    {
                        let l = lines[j];
                        proof {
                            assert(lsv[j as int] == l@);
                        }
                        if str_eq(l, "error: aborting due to previous error") {
                            stopped = true;
                            halt = true;
                        } else {
                            let v = line_is_visual_aid(l);
                            if !v && str_starts_with(l, problem.filepath.as_str()) {
                                stopped = true;
                            } else if skip > 0 {
                                skip = skip - 1;
                                was_visual = v;
                                j = j + 1;
                            } else if !v && !was_visual {
                                let ghost m0 = problem@.message.message;
                                problem.message.message.append("\n");
                                problem.message.message.append(l);
                                proof {
                                    assert("\n"@ =~= seq!['\n']) by {
                                        reveal_strlit("\n");
                                    }
                                    assert(problem@.message.message == m0 + seq!['\n'] + l@);
                                }
                                was_visual = v;
                                j = j + 1;
                            } else {
                                was_visual = v;
                                j = j + 1;
                            }
                        }
                    }
                    proof {
                        if !stopped {
                            assert(scan_cont(lsv, j as int, skip as int, was_visual,
                                p0.filepath, problem@.message.message)
                                == (j as int, problem@.message.message, false));
                        }
                        assert(scan_cont(lsv, i as int + 1, skip0, false, p0.filepath,
                            p0.message.message)
                            == (j as int, problem@.message.message, halt));
                    }
                    let ghost pv_before = problem_views(problems@);
                    let ghost saw0 = saw_error;
                    match level {
                        Level::Error => {
                            saw_error = true;
                            let ghost pfinal = problem@;
                            problems.push(problem);
                            proof {
                                assert(problem_views(problems@) =~= pv_before.push(pfinal));
                            }
                        },
                        Level::Warning => {
                            let ghost pfinal = problem@;
                            problems.push(problem);
                            proof {
                                assert(problem_views(problems@) =~= pv_before.push(pfinal));
                            }
                        },
                        Level::Help => {
                            if problems.len() == 0 {
                                proof {
                                    assert(agg_from(lsv, i as int, pv_before, saw0)
                                        == Err::<(Seq<ProblemV>, bool), CheckError>(
                                            CheckError::AttachmentWithoutOwner));
                                }
                                return Err(CheckError::AttachmentWithoutOwner);
                            }
                            let mut lastp = match problems.pop() {
                                Some(p) => p,
                                None => {
                                    return Err(CheckError::AttachmentWithoutOwner);
                                },
                            };
                            let ghost hv0 = note_views(lastp.help@);
                            lastp.help.push(problem.message);
                            proof {
                                assert(note_views(lastp.help@)
                                    =~= hv0.push(problem@.message));
                            }
                            problems.push(lastp);
                            proof {
                                assert(problem_views(problems@)
                                    =~= attach_to_last(pv_before, Level::Help,
                                        problem@.message));
                            }
                        },
                        Level::Note => {
                            if problems.len() == 0 {
                                proof {
                                    assert(agg_from(lsv, i as int, pv_before, saw0)
                                        == Err::<(Seq<ProblemV>, bool), CheckError>(
                                            CheckError::AttachmentWithoutOwner));
                                }
                                return Err(CheckError::AttachmentWithoutOwner);
                            }
                            let mut lastp = match problems.pop() {
                                Some(p) => p,
                                None => {
                                    return Err(CheckError::AttachmentWithoutOwner);
                                },
                            };
                            let ghost nv0 = note_views(lastp.notes@);
                            lastp.notes.push(problem.message);
                            proof {
                                assert(note_views(lastp.notes@)
                                    =~= nv0.push(problem@.message));
                            }
                            problems.push(lastp);
                            proof {
                                assert(problem_views(problems@)
                                    =~= attach_to_last(pv_before, Level::Note,
                                        problem@.message));
                            }
                        },
                    }
                    proof {
                        if halt {
                            assert(agg_from(lsv, i as int, pv_before, saw0)
                                == Ok::<(Seq<ProblemV>, bool), CheckError>((
                                    problem_views(problems@), saw_error)));
                        } else {
                            assert(agg_from(lsv, i as int, pv_before, saw0)
                                == agg_from(lsv, j as int, problem_views(problems@),
                                    saw_error));
                        }
                    }
                    if halt {
                        done = true;
                    } else {
                        i = j;
                    }
                },
            }
        }
    }
    proof {
        if !done {
            assert(agg_from(lsv, i as int, problem_views(problems@), saw_error)
                == Ok::<(Seq<ProblemV>, bool), CheckError>((problem_views(problems@),
                    saw_error)));
        }
        assert(agg_from(lsv, 0, Seq::empty(), false)
            == Ok::<(Seq<ProblemV>, bool), CheckError>((problem_views(problems@),
                saw_error)));
    }
    if saw_error {
        Ok(Check::Error(problems))
    } else if problems.len() == 0 {
        let r = Check::Perfect;
        proof {
            assert(problem_views(problems@) =~= Seq::<ProblemV>::empty());
        }
        Ok(r)
    } else {
        Ok(Check::Warning(problems))
    }
}

} // verus!
