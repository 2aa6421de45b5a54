//! The errors of the solver graph, and how a failed solve is reported to the
//! user.

use vstd::prelude::*;
use vstd::std_specs::convert::FromSpecImpl;
use crate::style::{dimmed_yellow, dimmed_yellow_variants};
use crate::text::{join, join_strings, push_text, texts};

verus! {

/// The hint shown after a failed solve at a verbosity: how to see more.
pub open spec fn hint_text(verbosity: u64) -> Seq<char> {
    if verbosity == 0 {
        "\n * try '--verbose/-v' for more info"@
    } else if verbosity == 1 {
        "\n * try '-vv' for even more info"@
    } else {
        "\n * try '-vvv' for even more info"@
    }
}

/// A report ends with the hint for the verbosity, dimmed and yellow where
/// colours are on; at verbosity 3 and more there is none.
pub open spec fn with_hint(body: Seq<char>, report: Seq<char>, verbosity: u64) -> bool {
    if verbosity >= 3 {
        report == body
    } else {
        exists|h: Seq<char>| #[trigger] dimmed_yellow_variants(hint_text(verbosity), h) && report == body + h
    }
}

/// Append the hint for the verbosity.
pub fn push_hint(msg: &mut String, verbosity: u64)
    ensures
        with_hint(old(msg)@, final(msg)@, verbosity),
{
    if verbosity == 0 {
        let h = dimmed_yellow("\n * try '--verbose/-v' for more info");
        push_text(msg, h.as_str());
        proof {
            assert(dimmed_yellow_variants(hint_text(verbosity), h@));
            assert(final(msg)@ == old(msg)@ + h@);
        }
    } else if verbosity == 1 {
        let h = dimmed_yellow("\n * try '-vv' for even more info");
        push_text(msg, h.as_str());
        proof {
            assert(dimmed_yellow_variants(hint_text(verbosity), h@));
            assert(final(msg)@ == old(msg)@ + h@);
        }
    } else if verbosity == 2 {
        let h = dimmed_yellow("\n * try '-vvv' for even more info");
        push_text(msg, h.as_str());
        proof {
            assert(dimmed_yellow_variants(hint_text(verbosity), h@));
            assert(final(msg)@ == old(msg)@ + h@);
        }
    }
}

/// An error of the solver graph. Errors that wrap an error of another
/// component are held by their message.
#[derive(Debug)]
pub enum Error {
    /// The solve failed; the graph of the solve, as shown.
    FailedToResolve(String),
    Graph(String),
    /// A request for a package that no repository has, with its requesters.
    PackageNotFoundDuringSolve { request: String, requesters: Vec<String> },
    SolverError(String),
    SolverInterrupted(String),
    String(String),
    Other(String),
}

/// How an error of the solver graph is shown.
pub open spec fn error_text(e: Error) -> Seq<char> {
    match e {
        Error::FailedToResolve(g) => g@,
        Error::Graph(g) => g@,
        Error::PackageNotFoundDuringSolve { request, .. } => "Package not found: "@ + request@,
        Error::SolverError(m) => "Solver error: "@ + m@,
        Error::SolverInterrupted(m) => "Solver interrupted: "@ + m@,
        Error::String(m) => "Error: "@ + m@,
        Error::Other(m) => m@,
    }
}

/// The report of a failed solve for an error of the solver graph, before
/// the hint.
pub open spec fn report_body(e: Error) -> Seq<char> {
    "Failed to resolve"@ + match e {
        Error::FailedToResolve(_) => Seq::empty(),
        Error::SolverError(reason) => "\n * "@ + reason@,
        Error::Graph(g) => "\n * "@ + g@,
        Error::SolverInterrupted(m) => "\n * "@ + m@,
        Error::PackageNotFoundDuringSolve { request, requesters } => "\n * "@ + "Package '"@ + request@
            + "' not found during the solve as required by: "@ + join(texts(requesters@), ", "@)
            + ".\n   Please check the package name's spelling"@,
        _ => "\n * "@ + error_text(e),
    }
}

impl Error {
    /// How the error is shown.
    pub fn to_text(&self) -> (r: String)
        ensures
            r@ == error_text(*self),
    {
        let mut r = String::new();
        match self {
            Error::FailedToResolve(g) => push_text(&mut r, g.as_str()),
            Error::Graph(g) => push_text(&mut r, g.as_str()),
            Error::PackageNotFoundDuringSolve { request, .. } => {
                push_text(&mut r, "Package not found: ");
                push_text(&mut r, request.as_str());
            },
            Error::SolverError(m) => {
                push_text(&mut r, "Solver error: ");
                push_text(&mut r, m.as_str());
            },
            Error::SolverInterrupted(m) => {
                push_text(&mut r, "Solver interrupted: ");
                push_text(&mut r, m.as_str());
            },
            Error::String(m) => {
                push_text(&mut r, "Error: ");
                push_text(&mut r, m.as_str());
            },
            Error::Other(m) => push_text(&mut r, m.as_str()),
        }
        proof {
            assert(r@ =~= error_text(*self));
        }
        r
    }

    /// The report of a failed solve for this error: what failed, then a hint
    /// on how to see more at the verbosity.
    pub fn format_error(&self, verbosity: u32) -> (r: String)
        ensures
            with_hint(report_body(*self), r@, verbosity as u64),
    {
        let mut msg = String::new();
        push_text(&mut msg, "Failed to resolve");
        match self {
            Error::FailedToResolve(_) => {},
            Error::SolverError(reason) => {
                push_text(&mut msg, "\n * ");
                push_text(&mut msg, reason.as_str());
            },
            Error::Graph(g) => {
                push_text(&mut msg, "\n * ");
                push_text(&mut msg, g.as_str());
            },
            Error::SolverInterrupted(m) => {
                push_text(&mut msg, "\n * ");
                push_text(&mut msg, m.as_str());
            },
            Error::PackageNotFoundDuringSolve { request, requesters } => {
                push_text(&mut msg, "\n * ");
                push_text(&mut msg, "Package '");
                push_text(&mut msg, request.as_str());
                push_text(&mut msg, "' not found during the solve as required by: ");
                let joined = join_strings(requesters, ", ");
                push_text(&mut msg, joined.as_str());
                push_text(&mut msg, ".\n   Please check the package name's spelling");
            },
            _ => {
                push_text(&mut msg, "\n * ");
                let t = self.to_text();
                push_text(&mut msg, t.as_str());
            },
        }
        proof {
            assert(msg@ =~= report_body(*self));
        }
        push_hint(&mut msg, verbosity as u64);
        msg
    }
}

/// A package was asked for that the current resolve does not hold.
#[derive(Debug)]
pub enum GetCurrentResolveError {
    PackageNotResolved(String),
}

impl GetCurrentResolveError {
    /// How the error is shown.
    pub fn to_text(&self) -> (r: String)
        ensures
            self matches GetCurrentResolveError::PackageNotResolved(p) && r@ == "Package not resolved: "@ + p@,
    {
        match self {
            GetCurrentResolveError::PackageNotResolved(p) => {
                let mut r = String::new();
                push_text(&mut r, "Package not resolved: ");
                push_text(&mut r, p.as_str());
                r
            },
        }
    }
}

/// No merged request could be had for a package.
#[derive(Debug)]
pub enum GetMergedRequestError {
    NoRequestFor(String),
    Other(Box<Error>),
}

impl GetMergedRequestError {
    /// How the error is shown.
    pub fn to_text(&self) -> (r: String)
        ensures
            self matches GetMergedRequestError::NoRequestFor(p) ==> r@ == "No request for: "@ + p@,
            self matches GetMergedRequestError::Other(e) ==> r@ == error_text(**e),
    {
        match self {
            GetMergedRequestError::NoRequestFor(p) => {
                let mut r = String::new();
                push_text(&mut r, "No request for: ");
                push_text(&mut r, p.as_str());
                r
            },
            GetMergedRequestError::Other(e) => e.to_text(),
        }
    }
}

/// The graph error a merged request error stands for: a missing request
/// becomes an error with its text, any other error is itself.
pub open spec fn merged_to_graph(err: GetMergedRequestError) -> Error {
    match err {
        GetMergedRequestError::NoRequestFor(s) => Error::String(s),
        GetMergedRequestError::Other(e) => *e,
    }
}

impl From<GetMergedRequestError> for Error {
    fn from(err: GetMergedRequestError) -> (r: Self) {
        match err {
            GetMergedRequestError::NoRequestFor(s) => Error::String(s),
            GetMergedRequestError::Other(e) => *e,
        }
    }
}

impl FromSpecImpl<GetMergedRequestError> for Error {
    open spec fn obeys_from_spec() -> bool {
        true
    }

    open spec fn from_spec(err: GetMergedRequestError) -> Self {
        merged_to_graph(err)
    }
}

impl From<Error> for GetMergedRequestError {
    fn from(err: Error) -> (r: Self) {
        GetMergedRequestError::Other(Box::new(err))
    }
}

impl FromSpecImpl<Error> for GetMergedRequestError {
    open spec fn obeys_from_spec() -> bool {
        true
    }

    open spec fn from_spec(err: Error) -> Self {
        GetMergedRequestError::Other(Box::new(err))
    }
}

} // verus!
