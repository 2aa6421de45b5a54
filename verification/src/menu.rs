//! The menu shown when a solve pauses: what a typed answer asks for, and
//! the listings of the solve's state that it shows.

use vstd::prelude::*;
use vstd::string::StrSliceExecFns;
use crate::formatter::{lowercase, to_lower};
use crate::style::{yellow, yellow_variants};
use crate::text::{decimal, join, join_strings, push_decimal, push_text, texts};

verus! {

/// What the user asked for at the pause menu.
#[derive(Debug, Clone, Copy, PartialEq, Eq, Structural)]
pub enum MenuAction {
    /// Nothing was typed: ask again.
    AskAgain,
    /// Show the full menu.
    Help,
    ShowResolved,
    ShowUnresolved,
    ShowVarRequests,
    ShowOptions,
    /// Show all of the state.
    ShowState,
    /// Stop pausing and run the solve to its end.
    RunToCompletion,
    /// Continue the solve.
    Continue,
}

/// The action a menu letter asks for; any other letter continues.
pub open spec fn action_of_letter(c: char) -> MenuAction {
    if c == '?' {
        MenuAction::Help
    } else if c == 'r' {
        MenuAction::ShowResolved
    } else if c == 'u' {
        MenuAction::ShowUnresolved
    } else if c == 'v' {
        MenuAction::ShowVarRequests
    } else if c == 'o' {
        MenuAction::ShowOptions
    } else if c == 's' || c == 'a' {
        MenuAction::ShowState
    } else if c == 'c' {
        MenuAction::RunToCompletion
    } else {
        MenuAction::Continue
    }
}

/// What a typed answer asks for: by its first character in lower case.
pub open spec fn menu_action_of(response: Seq<char>) -> MenuAction {
    let l = lowercase(response);
    if l.len() == 0 {
        MenuAction::AskAgain
    } else {
        action_of_letter(l[0])
    }
}

/// Read the user's answer at the pause menu.
pub fn menu_action(response: &str) -> (r: MenuAction)
    ensures
        r == menu_action_of(response@),
{
    let l = to_lower(response);
    let s = l.as_str();
    if s.unicode_len() == 0 {
        return MenuAction::AskAgain;
    }
    let c = s.get_char(0);
    if c == '?' {
        MenuAction::Help
    } else if c == 'r' {
        MenuAction::ShowResolved
    } else if c == 'u' {
        MenuAction::ShowUnresolved
    } else if c == 'v' {
        MenuAction::ShowVarRequests
    } else if c == 'o' {
        MenuAction::ShowOptions
    } else if c == 's' || c == 'a' {
        MenuAction::ShowState
    } else if c == 'c' {
        MenuAction::RunToCompletion
    } else {
        MenuAction::Continue
    }
}

/// The listing of part of the state: `title` in yellow, the items indented
/// one per line, then "Number of `what`: " and their number.
pub fn state_listing(title: &str, items: &Vec<String>, what: &str) -> (r: String)
    ensures
        exists|t: Seq<char>|
            #[trigger] yellow_variants(title@, t) && r@ == t + "\n  "@ + join(texts(items@), "\n  "@)
                + "\nNumber of "@ + what@ + ": "@ + decimal(items@.len() as nat),
{
    let mut r = yellow(title);
    let ghost t = r@;
    push_text(&mut r, "\n  ");
    let joined = join_strings(items, "\n  ");
    push_text(&mut r, joined.as_str());
    push_text(&mut r, "\nNumber of ");
    push_text(&mut r, what);
    push_text(&mut r, ": ");
    push_decimal(&mut r, items.len() as u64);
    assert(yellow_variants(title@, t));
    r
}

} // verus!
