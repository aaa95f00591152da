//! The line field parser and the continuation classifier.
//!
//! A diagnostic header line follows the grammar
//! `filepath ":" start_line ":" start_col ":" WS* end_line ":" WS* end_col
//! WS+ level ":" WS* message`, read in a single left-to-right scan. The
//! classifier decides whether a continuation line is decorative visual-aid
//! output (source excerpts, carets, connector bars).

use vstd::prelude::*;
use crate::report::{NoteV, ProblemV, ProblemDescription, CheckError};
use crate::text::{
    is_ws, ws_char, find_colon_at, find_ws_at, find_non_ws_at, cap_start, dec_num,
    find_colon, find_ws, find_non_ws, capture_start, parse_usize, str_eq,
};

verus! {

/// The severity keyword of a diagnostic header line. `Warning` and `Error`
/// open a problem of their own; `Help` and `Note` attach to the problem
/// opened most recently.
#[derive(Debug, Clone, Copy, PartialEq, Eq, Structural)]
pub enum Level {
    Warning,
    Error,
    Help,
    Note,
}

/// The severity a captured level field denotes: exactly one of the four
/// keywords, case-sensitively.
pub open spec fn level_of(t: Seq<char>) -> Option<Level> {
    if t == "warning"@ {
        Some(Level::Warning)
    } else if t == "error"@ {
        Some(Level::Error)
    } else if t == "help"@ {
        Some(Level::Help)
    } else if t == "note"@ {
        Some(Level::Note)
    } else {
        None
    }
}

/// A numeric field: a non-negative decimal that fits the machine word.
pub open spec fn num_field(seg: Seq<char>) -> Option<nat> {
    match dec_num(seg) {
        Some(v) => if v <= usize::MAX as nat {
            Some(v)
        } else {
            None
        },
        None => None,
    }
}

/// The level keyword and the remaining fields of a header line, starting
/// from `pos`, the position right after the end-line field's colon:
/// optional whitespace, the end-column digits ended by whitespace, the
/// level keyword ended by a colon (a whitespace inside the field restarts
/// the capture), and the message from the first non-whitespace character
/// to the end of the line.
pub open spec fn parse_line_tail(s: Seq<char>, pos: int, filepath: Seq<char>, sl: nat,
    sc: nat, el: nat) -> Option<(Level, ProblemV)> {
    match find_non_ws_at(s, pos) {
        None => None,
        Some(k) => match find_ws_at(s, k) {
            None => None,
            Some(w) => match num_field(s.subrange(k, w)) {
                None => None,
                Some(ec) => match find_colon_at(s, w + 1) {
                    None => None,
                    Some(i6) => match level_of(s.subrange(cap_start(s, w + 1, i6), i6)) {
                        None => None,
                        Some(lv) => match find_non_ws_at(s, i6 + 1) {
                            None => None,
                            Some(m) => Some((lv, ProblemV {
                                filepath: filepath,
                                message: NoteV {
                                    start_line: sl,
                                    start_col: sc,
                                    end_line: el,
                                    end_col: ec,
                                    message: s.subrange(m, s.len() as int),
                                },
                                help: Seq::empty(),
                                notes: Seq::empty(),
                            })),
                        },
                    },
                },
            },
        },
    }
}

/// What one header line parses to: the severity level and a problem with
/// the filepath, the four span coordinates and the first message line
/// filled in, and empty attachment lists. `None` is the unparseable-line
/// condition: a missing field, an empty filepath, a malformed or oversized
/// numeric field, an unknown level keyword, or a line exhausted before the
/// message was reached. For the end-line field (and the level field) a
/// whitespace character restarts the capture, so the captured text is the
/// last whitespace-free run before the terminating colon.
pub open spec fn parse_line_spec(s: Seq<char>) -> Option<(Level, ProblemV)> {
    match find_colon_at(s, 0) {
        None => None,
        Some(i1) => if i1 == 0 {
            None
        } else {
            match find_colon_at(s, i1 + 1) {
                None => None,
                Some(i2) => match num_field(s.subrange(i1 + 1, i2)) {
                    None => None,
                    Some(sl) => match find_colon_at(s, i2 + 1) {
                        None => None,
                        Some(i3) => match num_field(s.subrange(i2 + 1, i3)) {
                            None => None,
                            Some(sc) => match find_colon_at(s, i3 + 1) {
                                None => None,
                                Some(i4) => match num_field(
                                    s.subrange(cap_start(s, i3 + 1, i4), i4)) {
                                    None => None,
                                    Some(el) => parse_line_tail(s, i4 + 1, s.subrange(0, i1),
                                        sl, sc, el),
                                },
                            },
                        },
                    },
                },
            }
        },
    }
}

/// Compares a captured level field with the four keywords.
fn level_of_range(s: &str, from: usize, to: usize) -> (r: Option<Level>)
    requires
        from <= to <= s@.len(),
    ensures
        r == level_of(s@.subrange(from as int, to as int)),
{
    let seg = s.substring_char(from, to);
    if str_eq(seg, "warning") {
        Some(Level::Warning)
    } else if str_eq(seg, "error") {
        Some(Level::Error)
    } else if str_eq(seg, "help") {
        Some(Level::Help)
    } else if str_eq(seg, "note") {
        Some(Level::Note)
    } else {
        None
    }
}

/// Parses one diagnostic header line into its severity level and a problem
/// record with empty attachment lists. Succeeds exactly on the lines the
/// grammar accepts; any malformed line is reported as
/// [`CheckError::UnparseableLine`] rather than recovered from.
pub fn parse_check_line(line: &str) -> (r: Result<(Level, ProblemDescription), CheckError>)
    ensures
        match r {
            Ok(p) => parse_line_spec(line@) == Some((p.0, p.1@)),
            Err(e) => parse_line_spec(line@) is None && e == CheckError::UnparseableLine,
        },
{
    let n = line.unicode_len();
    let i1 = match find_colon(line, 0) {
        Some(i) => i,
        None => {
            return Err(CheckError::UnparseableLine);
        },
    };
    if i1 == 0 {
        return Err(CheckError::UnparseableLine);
    }
    let i2 = match find_colon(line, i1 + 1) {
        Some(i) => i,
        None => {
            return Err(CheckError::UnparseableLine);
        },
    };
    let sl = match parse_usize(line, i1 + 1, i2) {
        Some(v) => v,
        None => {
            return Err(CheckError::UnparseableLine);
        },
    };
    let i3 = match find_colon(line, i2 + 1) {
        Some(i) => i,
        None => {
            return Err(CheckError::UnparseableLine);
        },
    };
    let sc = match parse_usize(line, i2 + 1, i3) {
        Some(v) => v,
        None => {
            return Err(CheckError::UnparseableLine);
        },
    };
    let i4 = match find_colon(line, i3 + 1) {
        Some(i) => i,
        None => {
            return Err(CheckError::UnparseableLine);
        },
    };
    let el_start = capture_start(line, i3 + 1, i4);
    let el = match parse_usize(line, el_start, i4) {
        Some(v) => v,
        None => {
            return Err(CheckError::UnparseableLine);
        },
    };
    // Past the end-line field: end column, level keyword, message.
    let k = match find_non_ws(line, i4 + 1) {
        Some(i) => i,
        None => {
            return Err(CheckError::UnparseableLine);
        },
    };
    let w = match find_ws(line, k) {
        Some(i) => i,
        None => {
            return Err(CheckError::UnparseableLine);
        },
    };
    let ec = match parse_usize(line, k, w) {
        Some(v) => v,
        None => {
            return Err(CheckError::UnparseableLine);
        },
    };
    let i6 = match find_colon(line, w + 1) {
        Some(i) => i,
        None => {
            return Err(CheckError::UnparseableLine);
        },
    };
    let lv_start = capture_start(line, w + 1, i6);
    let lv = match level_of_range(line, lv_start, i6) {
        Some(v) => v,
        None => {
            return Err(CheckError::UnparseableLine);
        },
    };
    let m = match find_non_ws(line, i6 + 1) {
        Some(i) => i,
        None => {
            return Err(CheckError::UnparseableLine);
        },
    };
    let filepath = String::from_str(line.substring_char(0, i1));
    let message = String::from_str(line.substring_char(m, n));
    let problem = ProblemDescription::new(filepath, sl, sc, el, ec, message, Vec::new(),
        Vec::new());
    proof {
        assert(crate::report::note_views(Seq::<crate::report::Note>::empty())
            =~= Seq::<NoteV>::empty());
        assert(problem@ == parse_line_spec(line@)->Some_0.1);
    }
    Ok((lv, problem))
}

/// How many `':'` characters a sequence holds.
pub open spec fn count_colons(s: Seq<char>) -> nat
    decreases s.len(),
{
    if s.len() == 0 {
        0
    } else {
        count_colons(s.drop_last()) + (if s.last() == ':' {
            1nat
        } else {
            0nat
        })
    }
}

/// A visual-aid line: scanning left to right, the first whitespace
/// character arrives while fewer than three colons have been seen. A line
/// without whitespace, and one whose fourth colon comes before any
/// whitespace, is not a visual aid.
pub open spec fn is_visual_aid_spec(s: Seq<char>) -> bool {
    match find_ws_at(s, 0) {
        Some(w) => count_colons(s.subrange(0, w)) < 3,
        None => false,
    }
}

/// Counting colons over a longer prefix never loses any.
proof fn lemma_count_colons_mono(s: Seq<char>, a: int, b: int)
    requires
        0 <= a <= b <= s.len(),
    ensures
        count_colons(s.subrange(0, a)) <= count_colons(s.subrange(0, b)),
    decreases b - a,
{
    if a < b {
        lemma_count_colons_mono(s, a, b - 1);
        assert(s.subrange(0, b).drop_last() =~= s.subrange(0, b - 1));
    }
}

/// Decides whether one line is decorative visual-aid output that carries
/// no diagnostic text of its own.
pub fn line_is_visual_aid(line: &str) -> (r: bool)
    ensures
        r == is_visual_aid_spec(line@),
{
    let n = line.unicode_len();
    let mut i: usize = 0;
    let mut cnt: usize = 0;
    while i < n
        invariant
            0 <= i <= n,
            n == line@.len(),
            cnt <= 3,
            find_ws_at(line@, 0) == find_ws_at(line@, i as int),
            forall|k: int| 0 <= k < i ==> !is_ws(line@[k]),
            cnt as nat == count_colons(line@.subrange(0, i as int)),
        decreases n - i,
    {
        let c = line.get_char(i);
        proof {
            assert(line@.subrange(0, i as int + 1).drop_last() =~= line@.subrange(0, i as int));
        }
        if ws_char(c) {
            proof {
                crate::text::lemma_find_ws(line@, 0, i as int);
            }
            return cnt < 3;
        }
        if c == ':' {
            if cnt == 3 {
                proof {
                    crate::text::lemma_find_ws_props(line@, i as int + 1);
                    match find_ws_at(line@, 0) {
                        Some(w) => {
                            assert(find_ws_at(line@, i as int) == Some(w));
                            assert(find_ws_at(line@, i as int + 1) == Some(w));
                            lemma_count_colons_mono(line@, i as int + 1, w);
                        },
                        None => {},
                    }
                }
                return false;
            }
            cnt = cnt + 1;
        }
        i = i + 1;
    }
    false
}

} // verus!
