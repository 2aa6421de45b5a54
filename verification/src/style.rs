//! Terminal colours of the solver's output, from the `colored` crate.
//! Whether colours are used depends on the environment and the terminal, so
//! the contracts state both outcomes.

use vstd::prelude::*;
use colored::Colorize;

verus! {

/// A text shown in magenta: the text itself when colours are off, or the
/// text between the magenta and reset escape sequences when they are on.
/// (For a text that itself holds an escape character nothing is stated.)
pub open spec fn magenta_variants(t: Seq<char>, r: Seq<char>) -> bool {
    !t.contains('\x1b') ==> (r == t || r == "\x1b[35m"@ + t + "\x1b[0m"@)
}

/// A text shown dimmed and yellow, in the same two outcomes.
pub open spec fn dimmed_yellow_variants(t: Seq<char>, r: Seq<char>) -> bool {
    !t.contains('\x1b') ==> (r == t || r == "\x1b[2;33m"@ + t + "\x1b[0m"@)
}

/// A text shown in yellow, in the same two outcomes.
pub open spec fn yellow_variants(t: Seq<char>, r: Seq<char>) -> bool {
    !t.contains('\x1b') ==> (r == t || r == "\x1b[33m"@ + t + "\x1b[0m"@)
}

/// `Colorize::yellow`, rendered: the text in yellow where colours are on.
#[verifier::external_body]
pub(crate) fn yellow(text: &str) -> (r: String)
    ensures
        yellow_variants(text@, r@),
{
    text.yellow().to_string()
}

/// `Colorize::magenta`, rendered: the text in magenta where colours are on.
#[verifier::external_body]
pub(crate) fn magenta(text: &str) -> (r: String)
    ensures
        magenta_variants(text@, r@),
{
    text.magenta().to_string()
}

/// `Colorize::dimmed` then `yellow`, rendered: the text dimmed and yellow
/// where colours are on.
#[verifier::external_body]
pub(crate) fn dimmed_yellow(text: &str) -> (r: String)
    ensures
        dimmed_yellow_variants(text@, r@),
{
    text.dimmed().yellow().to_string()
}

} // verus!
