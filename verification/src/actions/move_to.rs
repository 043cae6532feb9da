//! Moving to another worktree: how the worktrees are offered, and the line
//! that tells a shell wrapper where to change directory.
use vstd::prelude::*;

use crate::git::{Worktree, WorktreeView};
use crate::text::{chars_of, concat_chars, string_from_chars};

verus! {

/// How a worktree is offered for choice: its path, its branch in brackets
/// (or `(detached HEAD)`), then `(main)` for the main worktree.
pub open spec fn spec_choice_label(w: WorktreeView) -> Seq<char> {
    let mark = if w.is_main {
        "(main)"@
    } else {
        Seq::empty()
    };
    if w.branch.len() == 0 {
        w.path + " (detached HEAD) "@ + mark
    } else {
        w.path + " ["@ + w.branch + "] "@ + mark
    }
}

/// The text a worktree is offered with (see `spec_choice_label`).
pub fn worktree_choice_label(wt: &Worktree) -> (r: String)
    ensures
        r@ == spec_choice_label(wt@),
{
    let path = chars_of(wt.path.as_str());
    let branch = chars_of(wt.branch.as_str());
    let mark = if wt.is_main {
        chars_of("(main)")
    } else {
        Vec::new()
    };
    let r = if branch.len() == 0 {
        let a = concat_chars(&path, &chars_of(" (detached HEAD) "));
        concat_chars(&a, &mark)
    } else {
        let a = concat_chars(&path, &chars_of(" ["));
        let b = concat_chars(&a, &branch);
        let c = concat_chars(&b, &chars_of("] "));
        concat_chars(&c, &mark)
    };
    string_from_chars(&r)
}

/// Whether there is a worktree to go to besides the current one: more than
/// one worktree is listed.
pub fn has_other_worktrees(worktrees: &Vec<Worktree>) -> (r: bool)
    ensures
        r == (worktrees.len() > 1),
{
    worktrees.len() > 1
}

/// The line a shell wrapper looks for to change directory: `COPSE_CD:`
/// followed by the target.
pub fn cd_marker(target: &str) -> (r: String)
    ensures
        r@ == "COPSE_CD:"@ + target@,
{
    let a = chars_of("COPSE_CD:");
    let b = chars_of(target);
    let r = concat_chars(&a, &b);
    string_from_chars(&r)
}

} // verus!
