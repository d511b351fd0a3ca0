//! The command-line surface: one positional action argument.
//!
//! The binary that wraps this library parses the real command line and
//! converts into these plain types.

use vstd::prelude::*;

verus! {

/// What the tool is asked to do with the sessions.
#[derive(Clone, Copy, PartialEq, Eq, Structural, Debug)]
pub enum Action {
    Save,
    Restore,
}

/// The parsed command line.
#[derive(Clone, Copy, PartialEq, Eq, Structural, Debug)]
pub struct TmuxSessionArgs {
    pub action: Action,
}

} // verus!
