//! Deleting worktrees: which ones may be deleted, how they are shown, how
//! the chosen mode reads, and what else goes with each deletion.
use vstd::prelude::*;

use crate::git::{copy_worktree, Worktree, WorktreeView};
use crate::path::{
    path_starts_with, same_path, same_path_chars, spec_strip_unc_prefix, starts_with_path,
    strip_unc_prefix_chars, PathStyle,
};
use crate::text::{chars_of, concat_chars, string_from_chars};

verus! {

/// A worktree together with its path as the file system resolves it, when
/// it could be resolved.
#[derive(Debug, Clone)]
pub struct ResolvedWorktree {
    pub worktree: Worktree,
    pub resolved_path: Option<String>,
}

pub open spec fn resolved_view(r: ResolvedWorktree) -> (WorktreeView, Option<Seq<char>>) {
    (
        r.worktree@,
        match r.resolved_path {
            Some(p) => Some(p@),
            None => None,
        },
    )
}

/// A worktree may be deleted unless it is the main one or the directory the
/// tool was started from lies in it (or is it). Paths are compared as the
/// file system resolves them, without a `\\?\` prefix.
pub open spec fn is_removable(
    st: PathStyle,
    w: (WorktreeView, Option<Seq<char>>),
    start_dir: Seq<char>,
) -> bool {
    let wt_path = spec_strip_unc_prefix(
        match w.1 {
            Some(p) => p,
            None => w.0.path,
        },
    );
    let here = spec_strip_unc_prefix(start_dir);
    !w.0.is_main && !(same_path(st, wt_path, here) || path_starts_with(st, here, wt_path))
}

/// The removable worktrees among the first `n` of `ws`, in their order.
pub open spec fn removable_prefix(
    st: PathStyle,
    ws: Seq<(WorktreeView, Option<Seq<char>>)>,
    start_dir: Seq<char>,
    n: int,
) -> Seq<WorktreeView>
    decreases n,
{
    if n <= 0 {
        Seq::empty()
    } else {
        let before = removable_prefix(st, ws, start_dir, n - 1);
        if is_removable(st, ws[n - 1], start_dir) {
            before.push(ws[n - 1].0)
        } else {
            before
        }
    }
}

pub open spec fn candidates_view(v: Seq<ResolvedWorktree>) -> Seq<(WorktreeView, Option<Seq<char>>)> {
    Seq::new(v.len(), |i: int| resolved_view(v[i]))
}

/// The worktrees that may be deleted, in the order they are listed.
pub fn removable_worktrees(
    st: PathStyle,
    candidates: &Vec<ResolvedWorktree>,
    start_dir: &str,
) -> (r: Vec<
    Worktree,
>)
    ensures
        crate::git::worktrees_view(r@) =~= removable_prefix(
            st,
            candidates_view(candidates@),
            start_dir@,
            candidates.len() as int,
        ),
{
    let here_raw = chars_of(start_dir);
    let here = strip_unc_prefix_chars(&here_raw);
    let mut r: Vec<Worktree> = Vec::new();
    let mut i: usize = 0;
    while i < candidates.len()
        invariant
            i <= candidates.len(),
            here@ == spec_strip_unc_prefix(start_dir@),
            crate::git::worktrees_view(r@) =~= removable_prefix(
                st,
                candidates_view(candidates@),
                start_dir@,
                i as int,
            ),
        decreases candidates.len() - i,
    {
        let c = &candidates[i];
        let ghost cv = candidates_view(candidates@)[i as int];
        assert(cv == resolved_view(*c));
        let keep = if c.worktree.is_main {
            false
        } else {
            let raw = match &c.resolved_path {
                Some(p) => chars_of(p.as_str()),
                None => chars_of(c.worktree.path.as_str()),
            };
            let wt_path = strip_unc_prefix_chars(&raw);
            !(same_path_chars(st, &wt_path, &here) || starts_with_path(st, &here, &wt_path))
        };
        assert(keep == is_removable(st, cv, start_dir@));
        if keep {
            let ghost before = r@;
            r.push(copy_worktree(&c.worktree));
            assert(crate::git::worktrees_view(r@) =~= crate::git::worktrees_view(before).push(
                cv.0,
            ));
        }
        i = i + 1;
    }
    r
}

/// How a worktree is offered for deletion: its path, then its branch in
/// brackets or `(detached HEAD)`.
pub open spec fn spec_delete_label(w: WorktreeView) -> Seq<char> {
    if w.branch.len() == 0 {
        w.path + " (detached HEAD)"@
    } else {
        w.path + " ["@ + w.branch + "]"@
    }
}

/// The text a worktree is offered for deletion with.
pub fn delete_item_label(wt: &Worktree) -> (r: String)
    ensures
        r@ == spec_delete_label(wt@),
{
    let path = chars_of(wt.path.as_str());
    let branch = chars_of(wt.branch.as_str());
    let r = if branch.len() == 0 {
        concat_chars(&path, &chars_of(" (detached HEAD)"))
    } else {
        let a = concat_chars(&path, &chars_of(" ["));
        let b = concat_chars(&a, &branch);
        concat_chars(&b, &chars_of("]"))
    };
    string_from_chars(&r)
}

/// The line a worktree is listed with before the final confirmation: its
/// deletion label, indented by two spaces.
pub fn confirmation_line(wt: &Worktree) -> (r: String)
    ensures
        r@ == "  "@ + spec_delete_label(wt@),
{
    let label = delete_item_label(wt);
    let a = chars_of("  ");
    let b = chars_of(label.as_str());
    let r = concat_chars(&a, &b);
    string_from_chars(&r)
}

/// How worktrees are deleted: whether by force, and whether their branches
/// go too.
#[derive(Debug, Clone, Copy, PartialEq, Eq, Structural)]
pub struct DeleteMode {
    pub force: bool,
    pub delete_branch: bool,
}

impl DeleteMode {
    /// The mode of the option picked from the menu: delete, force delete,
    /// delete with branches, force delete with branches.
    pub fn from_choice(choice: usize) -> (r: DeleteMode)
        ensures
            r.force == (choice == 1 || choice == 3),
            r.delete_branch == (choice == 2 || choice == 3),
    {
        DeleteMode { force: choice == 1 || choice == 3, delete_branch: choice == 2 || choice == 3 }
    }
}

/// Whether discarding changes must be confirmed: when not deleting by force
/// and some selected worktree was found to have uncommitted changes
/// (`checks` holds what each check gave, `None` where it failed).
pub fn must_confirm_discard(mode: DeleteMode, checks: &Vec<Option<bool>>) -> (r: bool)
    ensures
        r == (!mode.force && exists|i: int| 0 <= i < checks.len() && checks[i] == Some(true)),
{
    if mode.force {
        return false;
    }
    let mut i: usize = 0;
    while i < checks.len()
        invariant
            !mode.force,
            i <= checks.len(),
            forall|j: int| 0 <= j < i ==> checks[j] != Some(true),
        decreases checks.len() - i,
    {
        if let Some(true) = checks[i] {
            assert(checks[i as int] == Some(true));
            return true;
        }
        i = i + 1;
    }
    false
}

/// The branch to delete after a worktree was removed: its branch, when
/// branches are deleted too and it has one.
pub fn branch_to_delete(wt: &Worktree, mode: DeleteMode) -> (r: Option<String>)
    ensures
        mode.delete_branch && wt.branch@.len() > 0 ==> (r matches Some(b) && b@ == wt.branch@),
        !(mode.delete_branch && wt.branch@.len() > 0) ==> r is None,
{
    let b = chars_of(wt.branch.as_str());
    if mode.delete_branch && b.len() > 0 {
        Some(wt.branch.clone())
    } else {
        None
    }
}

/// `w` is one of the first `n` candidates, and may be deleted.
pub open spec fn offered_from(
    st: PathStyle,
    ws: Seq<(WorktreeView, Option<Seq<char>>)>,
    start_dir: Seq<char>,
    n: int,
    w: WorktreeView,
) -> bool {
    exists|j: int| 0 <= j < n && w == ws[j].0 && is_removable(st, ws[j], start_dir)
}

/// Every worktree offered for deletion is one of the candidates that may be
/// deleted: never the main worktree, and never the one the tool was
/// started in.
pub proof fn lemma_removable_are_deletable(
    st: PathStyle,
    ws: Seq<(WorktreeView, Option<Seq<char>>)>,
    start_dir: Seq<char>,
    n: int,
)
    requires
        0 <= n <= ws.len(),
    ensures
        forall|i: int|
            0 <= i < removable_prefix(st, ws, start_dir, n).len() ==> #[trigger] offered_from(
                st,
                ws,
                start_dir,
                n,
                removable_prefix(st, ws, start_dir, n)[i],
            ),
        forall|i: int|
            0 <= i < removable_prefix(st, ws, start_dir, n).len() ==> !(
            #[trigger] removable_prefix(st, ws, start_dir, n)[i]).is_main,
    decreases n,
{
    if n > 0 {
        lemma_removable_are_deletable(st, ws, start_dir, n - 1);
        let before = removable_prefix(st, ws, start_dir, n - 1);
        let now = removable_prefix(st, ws, start_dir, n);
        assert forall|i: int| 0 <= i < now.len() implies #[trigger] offered_from(
            st,
            ws,
            start_dir,
            n,
            now[i],
        ) by {
            if i < before.len() {
                assert(now[i] == before[i]);
                assert(offered_from(st, ws, start_dir, n - 1, before[i]));
                let j = choose|j: int|
                    0 <= j < n - 1 && before[i] == ws[j].0 && is_removable(st, ws[j], start_dir);
                assert(0 <= j < n && now[i] == ws[j].0 && is_removable(st, ws[j], start_dir));
            } else {
                assert(now[i] == ws[n - 1].0);
                assert(is_removable(st, ws[n - 1], start_dir));
            }
        }
        assert forall|i: int| 0 <= i < now.len() implies !(#[trigger] now[i]).is_main by {
            if i < before.len() {
                assert(now[i] == before[i]);
            } else {
                assert(now[i] == ws[n - 1].0);
            }
        }
    }
}

// ----------------------------------------------------------------------
// The steps of a deletion
// ----------------------------------------------------------------------

/// How a deletion ended.
#[derive(Debug, Clone, Copy, PartialEq, Eq, Structural)]
pub enum DeleteOutcome {
    /// No worktree may be deleted.
    NothingToDelete,
    /// No worktree was selected.
    NoneSelected,
    /// The user backed out.
    Cancelled,
    /// Each selected worktree was dealt with.
    Done,
}

/// Where a deletion stands, and so what is to be done next. `count` is the
/// number of worktrees selected, `index` the position of the one at hand.
#[derive(Debug, Clone, Copy, PartialEq, Eq, Structural)]
pub enum DeleteState {
    /// Find the worktrees that may be deleted.
    Start,
    /// Ask which worktrees to delete.
    ChooseWorktrees,
    /// Ask how to delete them.
    ChooseMode { count: usize },
    /// Check the selected worktrees for uncommitted changes.
    CheckChanges { mode: DeleteMode, count: usize },
    /// Changes were found: ask whether to discard them.
    ConfirmDiscard { mode: DeleteMode, count: usize },
    /// Show what will be deleted and ask for the final confirmation.
    ConfirmDeletion { mode: DeleteMode, count: usize },
    /// Remove the selected worktree at `index`.
    Remove { mode: DeleteMode, index: usize, count: usize },
    /// Delete the branch of the worktree at `index`, just removed.
    DeleteBranch { mode: DeleteMode, index: usize, count: usize },
    /// Stop.
    Finished(DeleteOutcome),
}

/// What doing the work of a state gave.
#[derive(Debug, Clone, Copy, PartialEq, Eq, Structural)]
pub enum DeleteEvent {
    /// The worktrees that may be deleted were found; this many.
    Found(usize),
    /// This many worktrees were selected (none if the choice was abandoned).
    Selected(usize),
    /// A way to delete was chosen.
    ModeChosen(DeleteMode),
    /// The choice of a way to delete was abandoned.
    ModeCancelled,
    /// Whether discarding changes must be confirmed (`must_confirm_discard`).
    ChangesChecked(bool),
    /// The user's yes or no.
    Answered(bool),
    /// Whether removing the worktree succeeded, and whether it has a branch.
    Removed { ok: bool, has_branch: bool },
    /// Deleting the branch was tried.
    BranchDone,
}

/// After the worktree at `index`: the next one, or the end.
pub open spec fn spec_after_worktree(mode: DeleteMode, index: usize, count: usize) -> DeleteState {
    if index + 1 < count {
        DeleteState::Remove { mode, index: (index + 1) as usize, count }
    } else {
        DeleteState::Finished(DeleteOutcome::Done)
    }
}

/// The state that `event`, the result of the work of `state`, leads to; an
/// event that does not answer the state's work leaves it unchanged.
pub open spec fn spec_next_delete_state(state: DeleteState, event: DeleteEvent) -> DeleteState {
    match (state, event) {
        (DeleteState::Start, DeleteEvent::Found(n)) => if n == 0 {
            DeleteState::Finished(DeleteOutcome::NothingToDelete)
        } else {
            DeleteState::ChooseWorktrees
        },
        (DeleteState::ChooseWorktrees, DeleteEvent::Selected(n)) => if n == 0 {
            DeleteState::Finished(DeleteOutcome::NoneSelected)
        } else {
            DeleteState::ChooseMode { count: n }
        },
        (DeleteState::ChooseMode { count }, DeleteEvent::ModeChosen(mode)) => if mode.force {
            DeleteState::ConfirmDeletion { mode, count }
        } else {
            DeleteState::CheckChanges { mode, count }
        },
        (DeleteState::ChooseMode { .. }, DeleteEvent::ModeCancelled) => DeleteState::Finished(
            DeleteOutcome::Cancelled,
        ),
        (DeleteState::CheckChanges { mode, count }, DeleteEvent::ChangesChecked(found)) => if found {
            DeleteState::ConfirmDiscard { mode, count }
        } else {
            DeleteState::ConfirmDeletion { mode, count }
        },
        (DeleteState::ConfirmDiscard { mode, count }, DeleteEvent::Answered(yes)) => if yes {
            DeleteState::ConfirmDeletion { mode, count }
        } else {
            DeleteState::Finished(DeleteOutcome::Cancelled)
        },
        (DeleteState::ConfirmDeletion { mode, count }, DeleteEvent::Answered(yes)) => if !yes {
            DeleteState::Finished(DeleteOutcome::Cancelled)
        } else if count > 0 {
            DeleteState::Remove { mode, index: 0, count }
        } else {
            DeleteState::Finished(DeleteOutcome::Done)
        },
        (
            DeleteState::Remove { mode, index, count },
            DeleteEvent::Removed { ok, has_branch },
        ) => if ok && mode.delete_branch && has_branch {
            DeleteState::DeleteBranch { mode, index, count }
        } else {
            spec_after_worktree(mode, index, count)
        },
        (DeleteState::DeleteBranch { mode, index, count }, DeleteEvent::BranchDone) =>
            spec_after_worktree(mode, index, count),
        _ => state,
    }
}

fn after_worktree(mode: DeleteMode, index: usize, count: usize) -> (r: DeleteState)
    ensures
        r == spec_after_worktree(mode, index, count),
{
    if index < count && count - index > 1 {
        DeleteState::Remove { mode, index: index + 1, count }
    } else {
        DeleteState::Finished(DeleteOutcome::Done)
    }
}

/// The state that `event` leads to from `state` (see
/// `spec_next_delete_state`).
pub fn next_delete_state(state: DeleteState, event: DeleteEvent) -> (r: DeleteState)
    ensures
        r == spec_next_delete_state(state, event),
{
    match (state, event) {
        (DeleteState::Start, DeleteEvent::Found(n)) => if n == 0 {
            DeleteState::Finished(DeleteOutcome::NothingToDelete)
        } else {
            DeleteState::ChooseWorktrees
        },
        (DeleteState::ChooseWorktrees, DeleteEvent::Selected(n)) => if n == 0 {
            DeleteState::Finished(DeleteOutcome::NoneSelected)
        } else {
            DeleteState::ChooseMode { count: n }
        },
        (DeleteState::ChooseMode { count }, DeleteEvent::ModeChosen(mode)) => if mode.force {
            DeleteState::ConfirmDeletion { mode, count }
        } else {
            DeleteState::CheckChanges { mode, count }
        },
        (DeleteState::ChooseMode { .. }, DeleteEvent::ModeCancelled) => DeleteState::Finished(
            DeleteOutcome::Cancelled,
        ),
        (DeleteState::CheckChanges { mode, count }, DeleteEvent::ChangesChecked(found)) => if found {
            DeleteState::ConfirmDiscard { mode, count }
        } else {
            DeleteState::ConfirmDeletion { mode, count }
        },
        (DeleteState::ConfirmDiscard { mode, count }, DeleteEvent::Answered(yes)) => if yes {
            DeleteState::ConfirmDeletion { mode, count }
        } else {
            DeleteState::Finished(DeleteOutcome::Cancelled)
        },
        (DeleteState::ConfirmDeletion { mode, count }, DeleteEvent::Answered(yes)) => if !yes {
            DeleteState::Finished(DeleteOutcome::Cancelled)
        } else if count > 0 {
            DeleteState::Remove { mode, index: 0, count }
        } else {
            DeleteState::Finished(DeleteOutcome::Done)
        },
        (
            DeleteState::Remove { mode, index, count },
            DeleteEvent::Removed { ok, has_branch },
        ) => if ok && mode.delete_branch && has_branch {
            DeleteState::DeleteBranch { mode, index, count }
        } else {
            after_worktree(mode, index, count)
        },
        (DeleteState::DeleteBranch { mode, index, count }, DeleteEvent::BranchDone) =>
            after_worktree(mode, index, count),
        _ => state,
    }
}

/// No worktree is removed before the final confirmation: the first
/// removal follows a yes to it, and each later one follows the work on the
/// worktree before it.
pub proof fn lemma_removal_needs_confirmation(state: DeleteState, event: DeleteEvent)
    ensures
        spec_next_delete_state(state, event) matches DeleteState::Remove { mode, index, count }
            ==> state == spec_next_delete_state(state, event) || (state
            == DeleteState::ConfirmDeletion { mode, count } && event == DeleteEvent::Answered(true)
            && index == 0) || (index > 0 && (state == DeleteState::Remove {
            mode,
            index: (index - 1) as usize,
            count,
        } || state == DeleteState::DeleteBranch { mode, index: (index - 1) as usize, count })),
{
}

/// A branch is deleted only when branches are to be deleted, right after
/// its worktree was removed, and never after a removal that failed.
pub proof fn lemma_branch_deletion_follows_removal(state: DeleteState, event: DeleteEvent)
    ensures
        spec_next_delete_state(state, event) matches DeleteState::DeleteBranch {
            mode,
            index,
            count,
        } ==> state == spec_next_delete_state(state, event) || (mode.delete_branch && state
            == DeleteState::Remove { mode, index, count } && event == DeleteEvent::Removed {
            ok: true,
            has_branch: true,
        }),
        (state is Remove && (event matches DeleteEvent::Removed { ok: false, .. })) ==> !(
        spec_next_delete_state(state, event) is DeleteBranch),
{
}

/// Without force, the final confirmation is reached only once the
/// worktrees were checked and no changes were found, or the user agreed to
/// discard the changes found; with force, it follows the choice of the
/// mode. The worktrees are checked only when the mode is not forced.
pub proof fn lemma_changes_guard_confirmation(state: DeleteState, event: DeleteEvent)
    ensures
        spec_next_delete_state(state, event) matches DeleteState::ConfirmDeletion { mode, count }
            ==> state == spec_next_delete_state(state, event) || (mode.force && state
            == DeleteState::ChooseMode { count } && event == DeleteEvent::ModeChosen(mode)) || (
        state == DeleteState::CheckChanges { mode, count } && event
            == DeleteEvent::ChangesChecked(false)) || (state == DeleteState::ConfirmDiscard {
            mode,
            count,
        } && event == DeleteEvent::Answered(true)),
        spec_next_delete_state(state, event) matches DeleteState::CheckChanges { mode, count }
            ==> state == spec_next_delete_state(state, event) || (!mode.force && state
            == DeleteState::ChooseMode { count } && event == DeleteEvent::ModeChosen(mode)),
        spec_next_delete_state(state, event) matches DeleteState::ConfirmDiscard { mode, count }
            ==> state == spec_next_delete_state(state, event) || (state
            == DeleteState::CheckChanges { mode, count } && event == DeleteEvent::ChangesChecked(
            true,
        )),
{
}

/// Once finished, a deletion stays finished.
pub proof fn lemma_delete_finished_is_final(outcome: DeleteOutcome, event: DeleteEvent)
    ensures
        spec_next_delete_state(DeleteState::Finished(outcome), event) == DeleteState::Finished(
            outcome,
        ),
{
}

/// A deletion is cancelled only by the user: by abandoning the choice of
/// a mode, or by a no to discarding changes or to the final confirmation;
/// and each of those cancels it.
pub proof fn lemma_delete_cancelled_only_by_user(state: DeleteState, event: DeleteEvent)
    ensures
        spec_next_delete_state(state, event) == DeleteState::Finished(DeleteOutcome::Cancelled)
            && state != DeleteState::Finished(DeleteOutcome::Cancelled) <==> (state is ChooseMode
            && event == DeleteEvent::ModeCancelled) || ((state is ConfirmDiscard
            || (state is ConfirmDeletion)) && event == DeleteEvent::Answered(false)),
{
}

/// A deletion ends with nothing to delete only when none may be deleted,
/// with none selected only when the user selected none, and done only once
/// the user confirmed and each selected worktree was dealt with.
pub proof fn lemma_delete_outcomes(state: DeleteState, event: DeleteEvent)
    ensures
        spec_next_delete_state(state, event) == DeleteState::Finished(
            DeleteOutcome::NothingToDelete,
        ) && state != spec_next_delete_state(state, event) <==> state == DeleteState::Start
            && event == DeleteEvent::Found(0),
        spec_next_delete_state(state, event) == DeleteState::Finished(DeleteOutcome::NoneSelected)
            && state != spec_next_delete_state(state, event) <==> state
            == DeleteState::ChooseWorktrees && event == DeleteEvent::Selected(0),
        spec_next_delete_state(state, event) == DeleteState::Finished(DeleteOutcome::Done) && state
            != spec_next_delete_state(state, event) ==> (state matches (DeleteState::ConfirmDeletion {
            count,
            ..
        }) && count == 0 && event == DeleteEvent::Answered(true)) || (state matches (DeleteState::Remove {
            index,
            count,
            ..
        }) && index + 1 >= count) || (state matches (DeleteState::DeleteBranch {
            index,
            count,
            ..
        }) && index + 1 >= count),
{
}

/// What the user agrees to goes ahead: worktrees found are offered, a
/// selection is asked how to delete, a forced mode goes to the final
/// confirmation and another one to the check for changes; a check that
/// finds none goes to the final confirmation and one that finds some asks
/// whether to discard them, a yes to which goes to the final confirmation;
/// and a yes to that removes the first selected worktree.
pub proof fn lemma_delete_goes_ahead(mode: DeleteMode, n: usize, count: usize)
    ensures
        n > 0 ==> spec_next_delete_state(DeleteState::Start, DeleteEvent::Found(n))
            == DeleteState::ChooseWorktrees,
        n > 0 ==> spec_next_delete_state(DeleteState::ChooseWorktrees, DeleteEvent::Selected(n))
            == (DeleteState::ChooseMode { count: n }),
        mode.force ==> spec_next_delete_state(
            (DeleteState::ChooseMode { count }),
            DeleteEvent::ModeChosen(mode),
        ) == (DeleteState::ConfirmDeletion { mode, count }),
        !mode.force ==> spec_next_delete_state(
            (DeleteState::ChooseMode { count }),
            DeleteEvent::ModeChosen(mode),
        ) == (DeleteState::CheckChanges { mode, count }),
        spec_next_delete_state(
            (DeleteState::CheckChanges { mode, count }),
            DeleteEvent::ChangesChecked(false),
        ) == (DeleteState::ConfirmDeletion { mode, count }),
        spec_next_delete_state(
            (DeleteState::CheckChanges { mode, count }),
            DeleteEvent::ChangesChecked(true),
        ) == (DeleteState::ConfirmDiscard { mode, count }),
        spec_next_delete_state(
            (DeleteState::ConfirmDiscard { mode, count }),
            DeleteEvent::Answered(true),
        ) == (DeleteState::ConfirmDeletion { mode, count }),
        count > 0 ==> spec_next_delete_state(
            (DeleteState::ConfirmDeletion { mode, count }),
            DeleteEvent::Answered(true),
        ) == (DeleteState::Remove { mode, index: 0, count }),
{
}

/// Each selected worktree is dealt with in turn: after the worktree at
/// `index` was removed, its branch is deleted when branches go too and it
/// has one (and never after a failed removal); then the next worktree
/// follows, or the deletion is done after the last one.
pub proof fn lemma_delete_each_worktree(
    mode: DeleteMode,
    index: usize,
    count: usize,
    ok: bool,
    has_branch: bool,
)
    requires
        index < count,
    ensures
        ok && mode.delete_branch && has_branch ==> spec_next_delete_state(
            (DeleteState::Remove { mode, index, count }),
            (DeleteEvent::Removed { ok, has_branch }),
        ) == (DeleteState::DeleteBranch { mode, index, count }),
        !(ok && mode.delete_branch && has_branch) && index + 1 < count ==> spec_next_delete_state(
            (DeleteState::Remove { mode, index, count }),
            (DeleteEvent::Removed { ok, has_branch }),
        ) == (DeleteState::Remove { mode, index: (index + 1) as usize, count }),
        !(ok && mode.delete_branch && has_branch) && index + 1 == count ==> spec_next_delete_state(
            (DeleteState::Remove { mode, index, count }),
            (DeleteEvent::Removed { ok, has_branch }),
        ) == DeleteState::Finished(DeleteOutcome::Done),
        index + 1 < count ==> spec_next_delete_state(
            (DeleteState::DeleteBranch { mode, index, count }),
            DeleteEvent::BranchDone,
        ) == (DeleteState::Remove { mode, index: (index + 1) as usize, count }),
        index + 1 == count ==> spec_next_delete_state(
            (DeleteState::DeleteBranch { mode, index, count }),
            DeleteEvent::BranchDone,
        ) == DeleteState::Finished(DeleteOutcome::Done),
{
}

} // verus!
