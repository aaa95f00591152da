//! The value types of a check run: spans (`Note`), problems, the overall
//! report (`Check`) and the error taxonomy (`CheckError`), together with
//! their mathematical views and their textual rendering.

use vstd::prelude::*;

verus! {

/// Mathematical view of a [`Note`]: four 1-based coordinates and the
/// message as a character sequence.
pub struct NoteV {
    pub start_line: nat,
    pub start_col: nat,
    pub end_line: nat,
    pub end_col: nat,
    pub message: Seq<char>,
}

/// A note about a span in the source file.
#[derive(Debug, Clone, PartialEq, Eq)]
pub struct Note {
    pub start_line: usize,
    /// In characters.
    pub start_col: usize,
    pub end_line: usize,
    /// In characters.
    pub end_col: usize,
    pub message: String,
}

impl View for Note {
    type V = NoteV;

    open spec fn view(&self) -> NoteV {
        NoteV {
            start_line: self.start_line as nat,
            start_col: self.start_col as nat,
            end_line: self.end_line as nat,
            end_col: self.end_col as nat,
            message: self.message@,
        }
    }
}

impl Note {
    pub fn new(start_line: usize, start_col: usize, end_line: usize, end_col: usize,
        message: String) -> (r: Note)
        ensures
            r@ == (NoteV {
                start_line: start_line as nat,
                start_col: start_col as nat,
                end_line: end_line as nat,
                end_col: end_col as nat,
                message: message@,
            }),
    {
        Note { start_line, start_col, end_line, end_col, message }
    }
}

/// Mathematical view of a [`ProblemDescription`].
pub struct ProblemV {
    pub filepath: Seq<char>,
    pub message: NoteV,
    pub help: Seq<NoteV>,
    pub notes: Seq<NoteV>,
}

/// A problem found in the code of a file during linting: the file, the
/// primary span, and the help and note spans attached to it, each list in
/// encounter order.
#[derive(Debug, Clone, PartialEq, Eq)]
pub struct ProblemDescription {
    pub filepath: String,
    pub message: Note,
    pub help: Vec<Note>,
    pub notes: Vec<Note>,
}

/// The views of a sequence of notes.
pub open spec fn note_views(v: Seq<Note>) -> Seq<NoteV> {
    v.map_values(|n: Note| n@)
}

impl View for ProblemDescription {
    type V = ProblemV;

    open spec fn view(&self) -> ProblemV {
        ProblemV {
            filepath: self.filepath@,
            message: self.message@,
            help: note_views(self.help@),
            notes: note_views(self.notes@),
        }
    }
}

impl ProblemDescription {
    /// Creates a new problem description.
    pub fn new(filepath: String, start_line: usize, start_col: usize, end_line: usize,
        end_col: usize, message: String, help: Vec<Note>, notes: Vec<Note>)
        -> (r: ProblemDescription)
        ensures
            r@ == (ProblemV {
                filepath: filepath@,
                message: NoteV {
                    start_line: start_line as nat,
                    start_col: start_col as nat,
                    end_line: end_line as nat,
                    end_col: end_col as nat,
                    message: message@,
                },
                help: note_views(help@),
                notes: note_views(notes@),
            }),
    {
        let message = Note::new(start_line, start_col, end_line, end_col, message);
        ProblemDescription { filepath, message, help, notes }
    }
}

/// The character of one decimal digit value.
pub open spec fn digit_char(d: nat) -> char {
    if d == 0 {
        '0'
    } else if d == 1 {
        '1'
    } else if d == 2 {
        '2'
    } else if d == 3 {
        '3'
    } else if d == 4 {
        '4'
    } else if d == 5 {
        '5'
    } else if d == 6 {
        '6'
    } else if d == 7 {
        '7'
    } else if d == 8 {
        '8'
    } else {
        '9'
    }
}

/// The decimal digits of a number, most significant first.
pub open spec fn dec_digits(n: nat) -> Seq<char>
    decreases n,
{
    if n < 10 {
        seq![digit_char(n)]
    } else {
        dec_digits(n / 10).push(digit_char(n % 10))
    }
}

/// Appends the decimal form of `n` to `out`.
fn push_dec(out: &mut String, n: usize)
    ensures
        final(out)@ == old(out)@ + dec_digits(n as nat),
    decreases n,
{
    if n >= 10 {
        push_dec(out, n / 10);
    }
    let d = n % 10;
    proof {
        reveal_strlit("0");
        reveal_strlit("1");
        reveal_strlit("2");
        reveal_strlit("3");
        reveal_strlit("4");
        reveal_strlit("5");
        reveal_strlit("6");
        reveal_strlit("7");
        reveal_strlit("8");
        reveal_strlit("9");
    }
    match d {
        0 => out.append("0"),
        1 => out.append("1"),
        2 => out.append("2"),
        3 => out.append("3"),
        4 => out.append("4"),
        5 => out.append("5"),
        6 => out.append("6"),
        7 => out.append("7"),
        8 => out.append("8"),
        _ => out.append("9"),
    }
    proof {
        if n < 10 {
            assert(dec_digits(n as nat) =~= Seq::<char>::empty().push(digit_char(n as nat)));
            assert(out@ =~= old(out)@ + dec_digits(n as nat));
        } else {
            assert(out@ =~= old(out)@ + dec_digits(n as nat));
        }
    }
}

/// The textual form of a span: `start_line:start_col: end_line:end_col: message`.
pub open spec fn note_render(v: NoteV) -> Seq<char> {
    dec_digits(v.start_line) + ":"@ + dec_digits(v.start_col) + ": "@
        + dec_digits(v.end_line) + ":"@ + dec_digits(v.end_col) + ": "@ + v.message
}

/// The textual form of an attachment list: ` (label<span>)` per entry, in order.
pub open spec fn attach_render(items: Seq<NoteV>, label: Seq<char>) -> Seq<char>
    decreases items.len(),
{
    if items.len() == 0 {
        Seq::empty()
    } else {
        attach_render(items.drop_last(), label) + " ("@ + label + note_render(items.last())
            + ")"@
    }
}

/// The textual form of a problem: `filepath:<primary span>` followed by its
/// help entries and then its note entries.
pub open spec fn problem_render(p: ProblemV) -> Seq<char> {
    p.filepath + ":"@ + note_render(p.message) + attach_render(p.help, "help: "@)
        + attach_render(p.notes, "note: "@)
}

impl Note {
    /// The span in its textual form.
    pub fn render(&self) -> (r: String)
        ensures
            r@ == note_render(self@),
    {
        let mut out = String::new();
        push_dec(&mut out, self.start_line);
        out.append(":");
        push_dec(&mut out, self.start_col);
        out.append(": ");
        push_dec(&mut out, self.end_line);
        out.append(":");
        push_dec(&mut out, self.end_col);
        out.append(": ");
        out.append(self.message.as_str());
        out
    }
}

impl ProblemDescription {
    /// The problem in its textual form.
    pub fn render(&self) -> (r: String)
        ensures
            r@ == problem_render(self@),
    {
        let mut out = String::new();
        out.append(self.filepath.as_str());
        out.append(":");
        let primary = self.message.render();
        out.append(primary.as_str());
        let ghost head = out@;
        proof {
            assert(note_views(self.help@.subrange(0, 0)) =~= Seq::<NoteV>::empty());
            assert(out@ =~= head + attach_render(note_views(self.help@.subrange(0, 0)),
                "help: "@));
        }
        let mut i: usize = 0;
        while i < self.help.len()
            invariant
                0 <= i as int <= self.help@.len(),
                out@ == head + attach_render(note_views(self.help@.subrange(0, i as int)),
                    "help: "@),
            decreases self.help@.len() - i,
        {
            let ghost pre = note_views(self.help@.subrange(0, i as int));
            out.append(" (");
            out.append("help: ");
            let piece = self.help[i].render();
            out.append(piece.as_str());
            out.append(")");
            proof {
                let post = note_views(self.help@.subrange(0, i as int + 1));
                assert(post.drop_last() =~= pre);
                assert(post.last() == self.help@[i as int]@);
                assert(out@ =~= head + attach_render(post, "help: "@));
            }
            i = i + 1;
        }
        proof {
            assert(self.help@.subrange(0, self.help@.len() as int) =~= self.help@);
        }
        let ghost head2 = out@;
        proof {
            assert(note_views(self.notes@.subrange(0, 0)) =~= Seq::<NoteV>::empty());
            assert(out@ =~= head2 + attach_render(note_views(self.notes@.subrange(0, 0)),
                "note: "@));
        }
        let mut k: usize = 0;
        while k < self.notes.len()
            invariant
                0 <= k as int <= self.notes@.len(),
                out@ == head2 + attach_render(note_views(self.notes@.subrange(0, k as int)),
                    "note: "@),
            decreases self.notes@.len() - k,
        {
            let ghost pre = note_views(self.notes@.subrange(0, k as int));
            out.append(" (");
            out.append("note: ");
            let piece = self.notes[k].render();
            out.append(piece.as_str());
            out.append(")");
            proof {
                let post = note_views(self.notes@.subrange(0, k as int + 1));
                assert(post.drop_last() =~= pre);
                assert(post.last() == self.notes@[k as int]@);
                assert(out@ =~= head2 + attach_render(post, "note: "@));
            }
            k = k + 1;
        }
        proof {
            assert(self.notes@.subrange(0, self.notes@.len() as int) =~= self.notes@);
            assert(out@ =~= problem_render(self@));
        }
        out
    }
}

/// Mathematical view of a [`Check`].
pub enum CheckV {
    Perfect,
    Warning(Seq<ProblemV>),
    Error(Seq<ProblemV>),
}

/// The result of a lint check.
#[derive(Debug, PartialEq)]
pub enum Check {
    /// No problems were found.
    Perfect,
    /// These warnings were found.
    Warning(Vec<ProblemDescription>),
    /// These errors were found.
    Error(Vec<ProblemDescription>),
}

/// The views of a sequence of problems.
pub open spec fn problem_views(v: Seq<ProblemDescription>) -> Seq<ProblemV> {
    v.map_values(|p: ProblemDescription| p@)
}

impl View for Check {
    type V = CheckV;

    open spec fn view(&self) -> CheckV {
        match self {
            Check::Perfect => CheckV::Perfect,
            Check::Warning(v) => CheckV::Warning(problem_views(v@)),
            Check::Error(v) => CheckV::Error(problem_views(v@)),
        }
    }
}

/// What can go wrong while producing a report: the two grammar violations
/// the parser can meet, and the failures of the surrounding process runner,
/// kept distinct so a caller can tell a malformed stream from a check that
/// never ran.
#[derive(Debug, PartialEq, Eq)]
pub enum CheckError {
    /// The external check command exited unsuccessfully.
    InvalidDirectory,
    /// Spawning or reading the external check command failed; the payload
    /// carries its description.
    IoError(String),
    /// A diagnostic header line did not follow the line grammar.
    UnparseableLine,
    /// A help or note line arrived before any owning problem existed.
    AttachmentWithoutOwner,
}

} // verus!
