//! Notes attached to solver decisions, and how they are shown.

use vstd::prelude::*;
use crate::text::push_text;
use crate::style::{magenta, magenta_variants};

verus! {

/// A note that a package build was tried and skipped. `pkg` is the build's
/// formatted ident and `pkg_name` its package name; `reason` is the text of
/// why it was skipped, and notes whose `reason_class` is the same give the
/// same kind of reason.
#[derive(Clone, Debug)]
pub struct SkipPackageNote {
    pub pkg: String,
    pub pkg_name: String,
    pub reason: String,
    pub reason_class: u64,
}

/// A note attached to a decision of the solver.
#[derive(Clone, Debug)]
pub enum Note {
    SkipPackageNote(SkipPackageNote),
    Other(String),
}

/// Two notes give the same reason.
pub open spec fn same_reason(a: Note, b: Note) -> bool {
    match (a, b) {
        (Note::SkipPackageNote(x), Note::SkipPackageNote(y)) => x.reason_class == y.reason_class,
        (Note::Other(x), Note::Other(y)) => x@ == y@,
        _ => false,
    }
}

/// The single note that replaces a list of notes when all of them were
/// skipped for the same reason as the first; `None` when they were not (or
/// there are none).
pub open spec fn note_summary(notes: Seq<Note>) -> Option<Seq<char>> {
    if notes.len() > 0 && forall|i: int| 0 <= i < notes.len() ==> same_reason(#[trigger] notes[i], notes[0]) {
        match notes[0] {
            Note::SkipPackageNote(f) => Some(
                "All options for '"@ + f.pkg_name@ + "' were skipped: "@ + f.reason@,
            ),
            Note::Other(f) => Some("All options were skipped: "@ + f@),
        }
    } else {
        None
    }
}

fn same_reason_exec(a: &Note, b: &Note) -> (r: bool)
    ensures
        r == same_reason(*a, *b),
{
    match (a, b) {
        (Note::SkipPackageNote(x), Note::SkipPackageNote(y)) => x.reason_class == y.reason_class,
        (Note::Other(x), Note::Other(y)) => *x == *y,
        _ => false,
    }
}

/// Condense notes if possible: if all options were skipped for the same
/// reason, a single summary note replaces the individual notes.
pub fn summarize_notes(notes: &Vec<Note>) -> (r: Option<String>)
    ensures
        r matches Some(m) ==> note_summary(notes@) == Some(m@),
        r is None ==> note_summary(notes@) is None,
{
    if notes.len() == 0 {
        return None;
    }
    let first = &notes[0];
    let mut i: usize = 0;
    while i < notes.len()
        invariant
            0 <= i <= notes@.len(),
            notes@.len() > 0,
            *first == notes@[0],
            forall|j: int| 0 <= j < i ==> same_reason(#[trigger] notes@[j], notes@[0]),
        decreases notes@.len() - i,
    {
        if !same_reason_exec(&notes[i], first) {
            return None;
        }
        i = i + 1;
    }
    let mut message = String::new();
    match first {
        Note::SkipPackageNote(f) => {
            push_text(&mut message, "All options for '");
            push_text(&mut message, f.pkg_name.as_str());
            push_text(&mut message, "' were skipped: ");
            push_text(&mut message, f.reason.as_str());
        },
        Note::Other(f) => {
            push_text(&mut message, "All options were skipped: ");
            push_text(&mut message, f.as_str());
        },
    }
    Some(message)
}

/// A note as the solver output shows it, with the label in the given style.
pub open spec fn note_text(label: Seq<char>, note: Note) -> Seq<char> {
    match note {
        Note::SkipPackageNote(n) => label + " "@ + n.pkg@ + " - "@ + n.reason@,
        Note::Other(s) => label + " "@ + s@,
    }
}

/// Format a note for output: "TRY <pkg> - <reason>" for a skipped package,
/// "NOTE <text>" otherwise, the label in magenta where colours are on.
pub fn format_note(note: &Note) -> (r: String)
    ensures
        note is SkipPackageNote ==> exists|label: Seq<char>|
            magenta_variants("TRY"@, label) && r@ == note_text(label, *note),
        note is Other ==> exists|label: Seq<char>|
            magenta_variants("NOTE"@, label) && r@ == note_text(label, *note),
{
    match note {
        Note::SkipPackageNote(n) => {
            let mut r = magenta("TRY");
            let ghost label = r@;
            push_text(&mut r, " ");
            push_text(&mut r, n.pkg.as_str());
            push_text(&mut r, " - ");
            push_text(&mut r, n.reason.as_str());
            assert(r@ =~= note_text(label, *note));
            r
        },
        Note::Other(s) => {
            let mut r = magenta("NOTE");
            let ghost label = r@;
            push_text(&mut r, " ");
            push_text(&mut r, s.as_str());
            assert(r@ =~= note_text(label, *note));
            r
        },
    }
}

} // verus!
