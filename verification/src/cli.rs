//! The command line and the choice of action.
use vstd::prelude::*;

verus! {

/// The options of the command line.
#[derive(Debug, Clone, Copy, PartialEq, Eq, Structural)]
pub struct Cli {
    /// Show verbose output for debugging.
    pub verbose: bool,
    /// Use absolute paths when creating worktrees (default: relative paths).
    pub absolute_path: bool,
}

/// The actions offered in the main menu, in menu order.
#[derive(Debug, Clone, Copy, PartialEq, Eq, Structural)]
pub enum Action {
    Create,
    Delete,
    MoveTo,
    CopyChanges,
}

impl Action {
    /// The action at position `index` of the menu.
    pub fn from_index(index: usize) -> (r: Option<Action>)
        ensures
            index == 0 ==> r == Some(Action::Create),
            index == 1 ==> r == Some(Action::Delete),
            index == 2 ==> r == Some(Action::MoveTo),
            index == 3 ==> r == Some(Action::CopyChanges),
            index > 3 ==> r is None,
    {
        match index {
            0 => Some(Action::Create),
            1 => Some(Action::Delete),
            2 => Some(Action::MoveTo),
            3 => Some(Action::CopyChanges),
            _ => None,
        }
    }

    pub open spec fn spec_name(self) -> Seq<char> {
        match self {
            Action::Create => "create"@,
            Action::Delete => "delete"@,
            Action::MoveTo => "move-to"@,
            Action::CopyChanges => "copy-changes"@,
        }
    }

    /// The name the action is listed under.
    pub fn name(&self) -> (r: &'static str)
        ensures
            r@ == self.spec_name(),
    {
        match self {
            Action::Create => "create",
            Action::Delete => "delete",
            Action::MoveTo => "move-to",
            Action::CopyChanges => "copy-changes",
        }
    }
}

} // verus!
