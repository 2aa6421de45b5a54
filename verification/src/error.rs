//! The errors of a solve, and how a failed solve is reported.

use vstd::prelude::*;
use crate::graph_error::{self, push_hint, with_hint};
use crate::notes::Note;
use crate::text::{decimal, push_decimal, push_text};

verus! {

/// No build could satisfy a request; the notes say why each was skipped.
#[derive(Debug)]
pub struct OutOfOptions {
    /// The request, as shown.
    pub request: String,
    pub notes: Vec<Note>,
}

/// An error of a solve. Errors that wrap an error of another component are
/// held by their message.
#[derive(Debug)]
pub enum Error {
    OutOfOptions(OutOfOptions),
    SolverInterrupted(String),
    GraphError(graph_error::Error),
    StatusBarIOError(String),
    InitialRequestsContainImpossibleError(usize),
    String(String),
    IncludingThisOutputNotSupported(String),
    /// The solver output file could not be made: the error, and the path.
    SolverLogFileIOError { error: String, path: String },
    Other(String),
}

/// How an error of a solve is shown.
pub open spec fn solve_error_text(e: Error) -> Seq<char> {
    match e {
        Error::OutOfOptions(o) => "Out of options for "@ + o.request@,
        Error::SolverInterrupted(m) => "Solver interrupted: "@ + m@,
        Error::GraphError(g) => graph_error::error_text(g),
        Error::StatusBarIOError(m) => "Status bar IO error: "@ + m@,
        Error::InitialRequestsContainImpossibleError(n) => "Initial requests contain "@ + decimal(n as nat)
            + " impossible request"@ + if n == 1 {
            ""@
        } else {
            "s"@
        } + "."@,
        Error::String(m) => "Error: "@ + m@,
        Error::IncludingThisOutputNotSupported(m) => "Error: "@ + m@ + " is not supported"@,
        Error::SolverLogFileIOError { error, path } => "Error: Solver log file not created: "@ + path@ + " - "@
            + error@,
        Error::Other(m) => m@,
    }
}

/// The report of a failed solve for an error, before the hint (an error of
/// the solver graph is reported as the graph reports it).
pub open spec fn solve_report_body(e: Error) -> Seq<char> {
    "Failed to resolve"@ + match e {
        Error::OutOfOptions(_) => "\n * out of options"@,
        Error::SolverInterrupted(m) => "\n * "@ + m@,
        _ => "\n * "@ + solve_error_text(e),
    }
}

impl Error {
    /// How the error is shown.
    pub fn to_text(&self) -> (r: String)
        ensures
            r@ == solve_error_text(*self),
    {
        let mut r = String::new();
        match self {
            Error::OutOfOptions(o) => {
                push_text(&mut r, "Out of options for ");
                push_text(&mut r, o.request.as_str());
            },
            Error::SolverInterrupted(m) => {
                push_text(&mut r, "Solver interrupted: ");
                push_text(&mut r, m.as_str());
            },
            Error::GraphError(g) => {
                let t = g.to_text();
                push_text(&mut r, t.as_str());
            },
            Error::StatusBarIOError(m) => {
                push_text(&mut r, "Status bar IO error: ");
                push_text(&mut r, m.as_str());
            },
            Error::InitialRequestsContainImpossibleError(n) => {
                push_text(&mut r, "Initial requests contain ");
                push_decimal(&mut r, *n as u64);
                push_text(&mut r, " impossible request");
                if *n != 1 {
                    push_text(&mut r, "s");
                } else {
                    push_text(&mut r, "");
                }
                push_text(&mut r, ".");
            },
            Error::String(m) => {
                push_text(&mut r, "Error: ");
                push_text(&mut r, m.as_str());
            },
            Error::IncludingThisOutputNotSupported(m) => {
                push_text(&mut r, "Error: ");
                push_text(&mut r, m.as_str());
                push_text(&mut r, " is not supported");
            },
            Error::SolverLogFileIOError { error, path } => {
                push_text(&mut r, "Error: Solver log file not created: ");
                push_text(&mut r, path.as_str());
                push_text(&mut r, " - ");
                push_text(&mut r, error.as_str());
            },
            Error::Other(m) => push_text(&mut r, m.as_str()),
        }
        proof {
            assert(r@ =~= solve_error_text(*self));
        }
        r
    }

    /// The report of a failed solve for this error: what failed, then a hint
    /// on how to see more at the verbosity. An error of the solver graph is
    /// reported as the graph reports it.
    pub fn format_error(&self, verbosity: u8) -> (r: String)
        ensures
            *self matches Error::GraphError(g) ==> with_hint(graph_error::report_body(g), r@, verbosity as u64),
            !(self is GraphError) ==> with_hint(solve_report_body(*self), r@, verbosity as u64),
    {
        let mut msg = String::new();
        push_text(&mut msg, "Failed to resolve");
        match self {
            Error::OutOfOptions(_) => {
                push_text(&mut msg, "\n * out of options");
            },
            Error::SolverInterrupted(m) => {
                push_text(&mut msg, "\n * ");
                push_text(&mut msg, m.as_str());
            },
            Error::GraphError(g) => {
                return g.format_error(verbosity as u32);
            },
            _ => {
                push_text(&mut msg, "\n * ");
                let t = self.to_text();
                push_text(&mut msg, t.as_str());
            },
        }
        proof {
            assert(msg@ =~= solve_report_body(*self));
        }
        push_hint(&mut msg, verbosity as u64);
        msg
    }
}

} // verus!
