//! Command-surface selectors.

use vstd::prelude::*;

verus! {

/// Which save location an `open` command targets.
#[derive(Debug, Clone, Copy, PartialEq, Eq, Structural)]
pub enum OpenCommand {
    Income,
    Outcome,
}

/// Which stored data a query or removal acts on.
#[derive(Debug, Clone, Copy, PartialEq, Eq, Structural)]
pub enum DbAction {
    GetEmail,
    RemoveEmail,
    GetMailbox,
    RemoveMailbox,
}

} // verus!
