//! The laws the library states of itself: determinism of parsing, the
//! preservation of encounter order, the verdict law, and the exactness of
//! the line field parser on well-formed header lines.

use vstd::prelude::*;
use crate::report::{CheckError, CheckV, NoteV, ProblemV, dec_digits, digit_char};
use crate::parse::{Level, level_of, num_field, parse_line_spec, parse_line_tail};
use crate::text::{
    all_digits, dec_num, digit_val, digits_val, is_digit, is_ws, lemma_cap_start,
    lemma_find_colon, lemma_find_colon_none, lemma_find_non_ws, lemma_find_ws,
};
use crate::aggregate::{
    agg_from, attach_to_last, check_output_spec, report_of, scan_cont, sentinel,
    split_lines_spec, split_rec, lemma_scan_cont_bounds,
};

verus! {

/// Idempotence: the report of a buffer is a function of the buffer alone,
/// so parsing the same buffer twice yields structurally equal reports.
pub proof fn lemma_parse_deterministic(t: Seq<char>, r1: Result<CheckV, CheckError>,
    r2: Result<CheckV, CheckError>)
    requires
        r1 == check_output_spec(t),
        r2 == check_output_spec(t),
    ensures
        r1 == r2,
{
}

/// `p` is an initial segment of `q`, element for element.
pub open spec fn list_prefix(p: Seq<NoteV>, q: Seq<NoteV>) -> bool {
    p.len() <= q.len() && forall|m: int| 0 <= m < p.len() ==> q[m] == p[m]
}

/// How a problem may change after it was appended: its filepath and
/// primary span stay as they were, and its attachment lists only grow at
/// the end.
pub open spec fn problem_extends(p2: ProblemV, p1: ProblemV) -> bool {
    p2.filepath == p1.filepath && p2.message == p1.message && list_prefix(p1.help, p2.help)
        && list_prefix(p1.notes, p2.notes)
}

/// A problem extends itself.
proof fn lemma_extends_refl(p: ProblemV)
    ensures
        problem_extends(p, p),
{
}

/// Extension is transitive.
proof fn lemma_extends_trans(a: ProblemV, b: ProblemV, c: ProblemV)
    requires
        problem_extends(b, a),
        problem_extends(c, b),
    ensures
        problem_extends(c, a),
{
}

/// One aggregation step turns `problems` into a list every collected
/// problem of which extends its original.
proof fn lemma_step_extends(problems: Seq<ProblemV>, probs2: Seq<ProblemV>,
    fin: Seq<ProblemV>)
    requires
        probs2.len() >= problems.len(),
        forall|k: int| 0 <= k < problems.len() ==> problem_extends(probs2[k], problems[k]),
        fin.len() >= probs2.len(),
        forall|k: int| 0 <= k < probs2.len() ==> problem_extends(fin[k], probs2[k]),
    ensures
        fin.len() >= problems.len(),
        forall|k: int| 0 <= k < problems.len() ==> problem_extends(fin[k], problems[k]),
{
    assert forall|k: int| 0 <= k < problems.len() implies problem_extends(fin[k],
        problems[k]) by {
        lemma_extends_trans(problems[k], probs2[k], fin[k]);
    }
}

/// Ordering: aggregation only ever appends to the problems list and to the
/// help and note lists of the problem appended most recently, so the
/// problems already collected keep their positions — the problems list and
/// each attachment list are in encounter order.
pub proof fn lemma_encounter_order(lines: Seq<Seq<char>>, i: int, problems: Seq<ProblemV>,
    saw_error: bool)
    ensures
        match agg_from(lines, i, problems, saw_error) {
            Ok(pair) => pair.0.len() >= problems.len() && (forall|k: int|
                0 <= k < problems.len() ==> problem_extends(pair.0[k], problems[k])),
            Err(e) => true,
        },
    decreases lines.len() - i,
{
    assert forall|k: int| 0 <= k < problems.len() implies problem_extends(problems[k],
        problems[k]) by {
        lemma_extends_refl(problems[k]);
    }
    if i < 0 || i >= lines.len() || lines[i] == sentinel() {
    } else {
        match parse_line_spec(lines[i]) {
            None => {},
            Some(pp) => {
                let skip: int = if pp.0 == Level::Warning {
                    2int
                } else {
                    0int
                };
                let sc = scan_cont(lines, i + 1, skip, false, pp.1.filepath,
                    pp.1.message.message);
                lemma_scan_cont_bounds(lines, i + 1, skip, false, pp.1.filepath,
                    pp.1.message.message);
                let p2 = ProblemV { message: NoteV { message: sc.1, ..pp.1.message }, ..pp.1 };
                match pp.0 {
                    Level::Error => {
                        let probs2 = problems.push(p2);
                        if !sc.2 {
                            lemma_encounter_order(lines, sc.0, probs2, true);
                            match agg_from(lines, sc.0, probs2, true) {
                                Ok(pair) => {
                                    lemma_step_extends(problems, probs2, pair.0);
                                },
                                Err(e) => {},
                            }
                        }
                    },
                    Level::Warning => {
                        let probs2 = problems.push(p2);
                        if !sc.2 {
                            lemma_encounter_order(lines, sc.0, probs2, saw_error);
                            match agg_from(lines, sc.0, probs2, saw_error) {
                                Ok(pair) => {
                                    lemma_step_extends(problems, probs2, pair.0);
                                },
                                Err(e) => {},
                            }
                        }
                    },
                    _ => {
                        if problems.len() > 0 {
                            let probs2 = attach_to_last(problems, pp.0, p2.message);
                            assert forall|k: int| 0 <= k < problems.len() implies
                                problem_extends(probs2[k], problems[k]) by {
                                if k < problems.len() - 1 {
                                    lemma_extends_refl(problems[k]);
                                }
                            }
                            if !sc.2 {
                                lemma_encounter_order(lines, sc.0, probs2, saw_error);
                                match agg_from(lines, sc.0, probs2, saw_error) {
                                    Ok(pair) => {
                                        lemma_step_extends(problems, probs2, pair.0);
                                    },
                                    Err(e) => {},
                                }
                            }
                        }
                    },
                }
            },
        }
    }
}

/// The error flag is only ever raised together with a push, so a raised
/// flag guarantees a non-empty problems list.
pub proof fn lemma_error_flag_nonempty(lines: Seq<Seq<char>>, i: int,
    problems: Seq<ProblemV>, saw_error: bool)
    requires
        saw_error ==> problems.len() > 0,
    ensures
        match agg_from(lines, i, problems, saw_error) {
            Ok(pair) => (pair.1 ==> pair.0.len() > 0)
                && (problems.len() > 0 ==> pair.0.len() > 0),
            Err(e) => true,
        },
    decreases lines.len() - i,
{
    if i < 0 || i >= lines.len() || lines[i] == sentinel() {
    } else {
        match parse_line_spec(lines[i]) {
            None => {},
            Some(pp) => {
                let skip: int = if pp.0 == Level::Warning {
                    2int
                } else {
                    0int
                };
                let sc = scan_cont(lines, i + 1, skip, false, pp.1.filepath,
                    pp.1.message.message);
                lemma_scan_cont_bounds(lines, i + 1, skip, false, pp.1.filepath,
                    pp.1.message.message);
                let p2 = ProblemV { message: NoteV { message: sc.1, ..pp.1.message }, ..pp.1 };
                match pp.0 {
                    Level::Error => {
                        if !sc.2 {
                            lemma_error_flag_nonempty(lines, sc.0, problems.push(p2), true);
                        }
                    },
                    Level::Warning => {
                        if !sc.2 {
                            lemma_error_flag_nonempty(lines, sc.0, problems.push(p2),
                                saw_error);
                        }
                    },
                    _ => {
                        if problems.len() > 0 {
                            let probs2 = attach_to_last(problems, pp.0, p2.message);
                            if !sc.2 {
                                lemma_error_flag_nonempty(lines, sc.0, probs2, saw_error);
                            }
                        }
                    },
                }
            },
        }
    }
}

/// Verdict law. Aggregation yields the collected problems together with a
/// flag that records whether an Error-severity diagnostic occurred. The
/// report is `Perfect` exactly when the problems list is empty; `Error`
/// exactly when an Error-severity diagnostic occurred, however many
/// warnings there were; and `Warning` exactly when problems were collected
/// and none of them was an error.
pub proof fn lemma_verdict_law(t: Seq<char>)
    ensures
        match agg_from(split_lines_spec(t), 0, Seq::empty(), false) {
            Ok(pair) => check_output_spec(t) == Ok::<CheckV, CheckError>(report_of(pair.0,
                pair.1)) && ((report_of(pair.0, pair.1) is Perfect) <==> pair.0.len() == 0)
                && ((report_of(pair.0, pair.1) is Error) <==> pair.1)
                && ((report_of(pair.0, pair.1) is Warning) <==> (!pair.1
                && pair.0.len() > 0)),
            Err(e) => check_output_spec(t) == Err::<CheckV, CheckError>(e),
        },
{
    lemma_error_flag_nonempty(split_lines_spec(t), 0, Seq::empty(), false);
}

/// Every rendered digit string is non-empty and all digits.
proof fn lemma_dec_digits_are_digits(n: nat)
    ensures
        dec_digits(n).len() >= 1,
        all_digits(dec_digits(n)),
    decreases n,
{
    if n < 10 {
        assert(is_digit(digit_char(n)));
    } else {
        lemma_dec_digits_are_digits(n / 10);
        assert(is_digit(digit_char(n % 10)));
        assert forall|k: int| 0 <= k < dec_digits(n).len() implies is_digit(
            dec_digits(n)[k]) by {
            if k < dec_digits(n / 10).len() {
                assert(dec_digits(n)[k] == dec_digits(n / 10)[k]);
            }
        }
    }
}

/// A decimal digit is not a colon, not whitespace, and not a plus sign.
proof fn lemma_digit_char_class(c: char)
    requires
        is_digit(c),
    ensures
        c != ':',
        c != '+',
        !is_ws(c),
{
}

/// Rendering then reading a number gives the number back.
proof fn lemma_dec_digits_roundtrip(n: nat)
    ensures
        digits_val(dec_digits(n)) == n,
    decreases n,
{
    if n < 10 {
        assert(dec_digits(n) == seq![digit_char(n)]);
        assert(seq![digit_char(n)].drop_last() =~= Seq::<char>::empty());
        assert(digits_val(Seq::<char>::empty()) == 0);
        assert(digit_val(digit_char(n)) == n);
    } else {
        lemma_dec_digits_roundtrip(n / 10);
        assert(dec_digits(n).drop_last() =~= dec_digits(n / 10));
        assert(dec_digits(n).last() == digit_char(n % 10));
        assert(digit_val(digit_char(n % 10)) == n % 10);
        assert(digits_val(dec_digits(n)) == digits_val(dec_digits(n).drop_last()) * 10
            + digit_val(dec_digits(n).last()));
        assert(digits_val(dec_digits(n)) == (n / 10) * 10 + n % 10);
        vstd::arithmetic::div_mod::lemma_fundamental_div_mod(n as int, 10);
    }
}

/// The rendered digits of a machine-sized number read back as that number.
proof fn lemma_dec_num_digits(n: nat)
    ensures
        dec_num(dec_digits(n)) == Some(n),
{
    lemma_dec_digits_are_digits(n);
    lemma_dec_digits_roundtrip(n);
    assert(is_digit(dec_digits(n)[0]));
    lemma_digit_char_class(dec_digits(n)[0]);
}

/// A well-formed diagnostic header line rendered from its fields.
pub open spec fn header_line(fp: Seq<char>, sl: nat, sc: nat, el: nat, ec: nat,
    lvl: Seq<char>, msg: Seq<char>) -> Seq<char> {
    fp + seq![':'] + dec_digits(sl) + seq![':'] + dec_digits(sc) + seq![':', ' ']
        + dec_digits(el) + seq![':'] + dec_digits(ec) + seq![' '] + lvl + seq![':', ' '] + msg
}

/// Exactness of the line field parser: a header line rendered from a
/// non-empty colon-free filepath, four machine-sized coordinates, a level
/// keyword and a message beginning with a non-whitespace character parses
/// back to exactly those fields, with empty attachment lists. When neither
/// the filepath nor the message holds a newline, neither does the line.
#[verifier::rlimit(100)]
pub proof fn lemma_parse_header_exact(fp: Seq<char>, sl: usize, sc: usize, el: usize,
    ec: usize, lvl: Seq<char>, lv: Level, msg: Seq<char>)
    requires
        fp.len() > 0,
        forall|k: int| 0 <= k < fp.len() ==> fp[k] != ':',
        level_of(lvl) == Some(lv),
        forall|k: int| 0 <= k < lvl.len() ==> lvl[k] != ':' && !is_ws(lvl[k]),
        msg.len() > 0,
        !is_ws(msg[0]),
    ensures
        parse_line_spec(header_line(fp, sl as nat, sc as nat, el as nat, ec as nat, lvl,
            msg)) == Some((lv, ProblemV {
            filepath: fp,
            message: NoteV {
                start_line: sl as nat,
                start_col: sc as nat,
                end_line: el as nat,
                end_col: ec as nat,
                message: msg,
            },
            help: Seq::empty(),
            notes: Seq::empty(),
        })),
        ((forall|k: int| 0 <= k < fp.len() ==> fp[k] != '\n') && (forall|k: int|
            0 <= k < msg.len() ==> msg[k] != '\n')) ==> (forall|k: int|
            0 <= k < header_line(fp, sl as nat, sc as nat, el as nat, ec as nat, lvl,
                msg).len() ==> header_line(fp, sl as nat, sc as nat, el as nat, ec as nat,
                lvl, msg)[k] != '\n'),
{
    let d_sl = dec_digits(sl as nat);
    let d_sc = dec_digits(sc as nat);
    let d_el = dec_digits(el as nat);
    let d_ec = dec_digits(ec as nat);
    lemma_dec_num_digits(sl as nat);
    lemma_dec_num_digits(sc as nat);
    lemma_dec_num_digits(el as nat);
    lemma_dec_num_digits(ec as nat);
    lemma_dec_digits_are_digits(sl as nat);
    lemma_dec_digits_are_digits(sc as nat);
    lemma_dec_digits_are_digits(el as nat);
    lemma_dec_digits_are_digits(ec as nat);
    let s = header_line(fp, sl as nat, sc as nat, el as nat, ec as nat, lvl, msg);
    let i1 = fp.len() as int;
    let a = i1 + 1;
    let i2 = a + d_sl.len();
    let b = i2 + 1;
    let i3 = b + d_sc.len();
    let c0 = i3 + 2;
    let i4 = c0 + d_el.len();
    let d0 = i4 + 1;
    let w = d0 + d_ec.len();
    let l0 = w + 1;
    let i6 = l0 + lvl.len() as int;
    let m0 = i6 + 2;
    assert(s.len() == m0 + msg.len());
    assert(forall|k: int| 0 <= k < i1 ==> s[k] == fp[k]);
    assert(s[i1] == ':');
    assert(forall|k: int| a <= k < i2 ==> s[k] == d_sl[k - a]);
    assert(s[i2] == ':');
    assert(forall|k: int| b <= k < i3 ==> s[k] == d_sc[k - b]);
    assert(s[i3] == ':');
    assert(s[i3 + 1] == ' ');
    assert(forall|k: int| c0 <= k < i4 ==> s[k] == d_el[k - c0]);
    assert(s[i4] == ':');
    assert(forall|k: int| d0 <= k < w ==> s[k] == d_ec[k - d0]);
    assert(s[w] == ' ');
    assert(forall|k: int| l0 <= k < i6 ==> s[k] == lvl[k - l0]);
    assert(s[i6] == ':');
    assert(s[i6 + 1] == ' ');
    assert(forall|k: int| m0 <= k < s.len() ==> s[k] == msg[k - m0]);

    assert forall|k: int| a <= k < i2 implies s[k] != ':' && !is_ws(s[k]) by {
        lemma_digit_char_class(d_sl[k - a]);
    }
    assert forall|k: int| b <= k < i3 implies s[k] != ':' && !is_ws(s[k]) by {
        lemma_digit_char_class(d_sc[k - b]);
    }
    assert forall|k: int| c0 <= k < i4 implies s[k] != ':' && !is_ws(s[k]) by {
        lemma_digit_char_class(d_el[k - c0]);
    }
    assert forall|k: int| d0 <= k < w implies s[k] != ':' && !is_ws(s[k]) by {
        lemma_digit_char_class(d_ec[k - d0]);
    }

    lemma_find_colon(s, 0, i1);
    lemma_find_colon(s, i1 + 1, i2);
    assert(s.subrange(a, i2) =~= d_sl);
    assert(num_field(s.subrange(a, i2)) == Some(sl as nat));
    lemma_find_colon(s, i2 + 1, i3);
    assert(s.subrange(b, i3) =~= d_sc);
    assert(num_field(s.subrange(b, i3)) == Some(sc as nat));
    lemma_find_colon(s, i3 + 1, i4);
    lemma_cap_start(s, i3 + 1, i4, c0);
    assert(s.subrange(c0, i4) =~= d_el);
    assert(num_field(s.subrange(c0, i4)) == Some(el as nat));
    lemma_find_non_ws(s, i4 + 1, d0);
    lemma_find_ws(s, d0, w);
    assert(s.subrange(d0, w) =~= d_ec);
    assert(num_field(s.subrange(d0, w)) == Some(ec as nat));
    lemma_find_colon(s, w + 1, i6);
    lemma_cap_start(s, w + 1, i6, l0);
    assert(s.subrange(l0, i6) =~= lvl);
    lemma_find_non_ws(s, i6 + 1, m0);
    assert(s.subrange(m0, s.len() as int) =~= msg);
    assert(s.subrange(0, i1) =~= fp);

    assert(parse_line_tail(s, i4 + 1, s.subrange(0, i1), sl as nat, sc as nat, el as nat)
        == Some((lv, ProblemV {
        filepath: fp,
        message: NoteV {
            start_line: sl as nat,
            start_col: sc as nat,
            end_line: el as nat,
            end_col: ec as nat,
            message: msg,
        },
        help: Seq::empty(),
        notes: Seq::empty(),
    })));
}

/// A buffer without a newline splits into that single line.
proof fn lemma_split_no_newline(t: Seq<char>, i: int, start: int, acc: Seq<Seq<char>>)
    requires
        0 <= start <= i <= t.len(),
        start < t.len(),
        forall|k: int| i <= k < t.len() ==> t[k] != '\n',
    ensures
        split_rec(t, i, start, acc) == acc.push(t.subrange(start, t.len() as int)),
    decreases t.len() - i,
{
    if i < t.len() {
        lemma_split_no_newline(t, i + 1, start, acc);
    }
}

/// The terminal marker itself never parses as a header line: its only
/// colon is the one after its first word.
proof fn lemma_sentinel_unparseable()
    ensures
        parse_line_spec(sentinel()) is None,
{
    reveal_strlit("error: aborting due to previous error");
    assert(sentinel().len() == 37);
    assert(sentinel()[5] == ':');
    assert(forall|k: int| 0 <= k < 5 ==> sentinel()[k] != ':');
    lemma_find_colon(sentinel(), 0, 5);
    assert(forall|k: int| 6 <= k < 37 ==> sentinel()[k] != ':');
    lemma_find_colon_none(sentinel(), 6);
}

/// A single well-formed diagnostic with no help or notes: the report holds
/// exactly one problem whose filepath, span coordinates and message match
/// the input fields, under the verdict its severity demands.
#[verifier::rlimit(100)]
pub proof fn lemma_single_diagnostic(fp: Seq<char>, sl: usize, sc: usize, el: usize,
    ec: usize, lvl: Seq<char>, lv: Level, msg: Seq<char>)
    requires
        fp.len() > 0,
        forall|k: int| 0 <= k < fp.len() ==> fp[k] != ':' && fp[k] != '\n',
        level_of(lvl) == Some(lv),
        forall|k: int| 0 <= k < lvl.len() ==> lvl[k] != ':' && !is_ws(lvl[k]),
        msg.len() > 0,
        !is_ws(msg[0]),
        forall|k: int| 0 <= k < msg.len() ==> msg[k] != '\n',
        lv == Level::Warning || lv == Level::Error,
    ensures
        ({
            let p = ProblemV {
                filepath: fp,
                message: NoteV {
                    start_line: sl as nat,
                    start_col: sc as nat,
                    end_line: el as nat,
                    end_col: ec as nat,
                    message: msg,
                },
                help: Seq::empty(),
                notes: Seq::empty(),
            };
            check_output_spec(header_line(fp, sl as nat, sc as nat, el as nat, ec as nat,
                lvl, msg)) == Ok::<CheckV, CheckError>(if lv == Level::Error {
                CheckV::Error(seq![p])
            } else {
                CheckV::Warning(seq![p])
            })
        }),
{
    lemma_parse_header_exact(fp, sl, sc, el, ec, lvl, lv, msg);
    let s = header_line(fp, sl as nat, sc as nat, el as nat, ec as nat, lvl, msg);
    let p = ProblemV {
        filepath: fp,
        message: NoteV {
            start_line: sl as nat,
            start_col: sc as nat,
            end_line: el as nat,
            end_col: ec as nat,
            message: msg,
        },
        help: Seq::empty(),
        notes: Seq::empty(),
    };
    lemma_split_no_newline(s, 0, 0, Seq::empty());
    assert(s.subrange(0, s.len() as int) =~= s);
    let lines = split_lines_spec(s);
    assert(lines =~= seq![s]);
    lemma_sentinel_unparseable();
    assert(s != sentinel());
    let sct = scan_cont(lines, 1, if lv == Level::Warning {
        2int
    } else {
        0int
    }, false, p.filepath, p.message.message);
    assert(sct == (1int, p.message.message, false));
    let p2 = ProblemV { message: NoteV { message: sct.1, ..p.message }, ..p };
    assert(p2 == p);
    assert(Seq::<ProblemV>::empty().push(p) =~= seq![p]);
    if lv == Level::Error {
        assert(agg_from(lines, 1, seq![p], true) == Ok::<(Seq<ProblemV>, bool),
            CheckError>((seq![p], true)));
        assert(agg_from(lines, 0, Seq::empty(), false) == Ok::<(Seq<ProblemV>, bool),
            CheckError>((seq![p], true)));
    } else {
        assert(agg_from(lines, 1, seq![p], false) == Ok::<(Seq<ProblemV>, bool),
            CheckError>((seq![p], false)));
        assert(agg_from(lines, 0, Seq::empty(), false) == Ok::<(Seq<ProblemV>, bool),
            CheckError>((seq![p], false)));
    }
}

} // verus!
