//! Copying uncommitted changes from another worktree into the current one,
//! as a state machine: each state says what is to be done next (ask the
//! user, run git, or stop), and `next_state` says where the result of doing
//! it leads.
use vstd::prelude::*;

verus! {

/// How copying changes ended.
#[derive(Debug, Clone, Copy, PartialEq, Eq, Structural)]
pub enum CopyOutcome {
    /// There is no worktree besides the current one.
    NoOtherWorktrees,
    /// The user backed out.
    Cancelled,
    /// The chosen worktree has no uncommitted changes.
    NoChanges,
    /// The 3-way merge failed.
    ThreeWayFailed,
    /// Only untracked files were offered, and that is finished.
    UntrackedOnlyFinished,
    /// The changes were applied (and the untracked files dealt with).
    Done,
}

/// Where copying changes stands, and so what is to be done next.
#[derive(Debug, Clone, Copy, PartialEq, Eq, Structural)]
pub enum CopyState {
    /// List the worktrees.
    Start,
    /// Ask which worktree to copy from.
    ChooseSource,
    /// Check whether the chosen worktree has uncommitted changes.
    CheckChanges,
    /// Read the diff of the chosen worktree.
    ReadDiff,
    /// The diff is empty: ask whether to copy the untracked files alone.
    OfferUntrackedOnly,
    /// Check whether the diff applies cleanly here.
    CheckApply,
    /// Ask whether to apply the diff.
    ConfirmApply,
    /// The diff does not apply cleanly: ask whether to try a 3-way merge.
    ConfirmThreeWay,
    /// Apply the diff.
    Apply,
    /// Apply the diff with a 3-way merge.
    ApplyThreeWay,
    /// Ask whether to copy the untracked files too.
    OfferUntracked,
    /// Copy the untracked files; `then_done` says whether the changes were
    /// applied before.
    CopyUntracked { then_done: bool },
    /// Stop.
    Finished(CopyOutcome),
}

/// What doing the work of a state gave.
#[derive(Debug, Clone, Copy, PartialEq, Eq, Structural)]
pub enum CopyEvent {
    /// The worktrees were listed; this many of them.
    Listed(usize),
    /// A worktree was chosen, or the choice was abandoned.
    Chosen(bool),
    /// Whether the chosen worktree has uncommitted changes.
    ChangesFound(bool),
    /// Whether the diff read is empty.
    DiffRead { empty: bool },
    /// Whether the diff applies cleanly.
    ApplyChecked(bool),
    /// The user's yes or no.
    Answered(bool),
    /// The diff was applied.
    Applied,
    /// Whether the 3-way merge succeeded.
    ThreeWayApplied(bool),
    /// The untracked files were copied.
    Copied,
}

/// The state that `event`, the result of the work of `state`, leads to; an
/// event that does not answer the state's work leaves it unchanged.
pub open spec fn spec_next_state(state: CopyState, event: CopyEvent) -> CopyState {
    match (state, event) {
        (CopyState::Start, CopyEvent::Listed(n)) => if n <= 1 {
            CopyState::Finished(CopyOutcome::NoOtherWorktrees)
        } else {
            CopyState::ChooseSource
        },
        (CopyState::ChooseSource, CopyEvent::Chosen(chosen)) => if chosen {
            CopyState::CheckChanges
        } else {
            CopyState::Finished(CopyOutcome::Cancelled)
        },
        (CopyState::CheckChanges, CopyEvent::ChangesFound(found)) => if found {
            CopyState::ReadDiff
        } else {
            CopyState::Finished(CopyOutcome::NoChanges)
        },
        (CopyState::ReadDiff, CopyEvent::DiffRead { empty }) => if empty {
            CopyState::OfferUntrackedOnly
        } else {
            CopyState::CheckApply
        },
        (CopyState::OfferUntrackedOnly, CopyEvent::Answered(yes)) => if yes {
            CopyState::CopyUntracked { then_done: false }
        } else {
            CopyState::Finished(CopyOutcome::UntrackedOnlyFinished)
        },
        (CopyState::CheckApply, CopyEvent::ApplyChecked(clean)) => if clean {
            CopyState::ConfirmApply
        } else {
            CopyState::ConfirmThreeWay
        },
        (CopyState::ConfirmApply, CopyEvent::Answered(yes)) => if yes {
            CopyState::Apply
        } else {
            CopyState::Finished(CopyOutcome::Cancelled)
        },
        (CopyState::ConfirmThreeWay, CopyEvent::Answered(yes)) => if yes {
            CopyState::ApplyThreeWay
        } else {
            CopyState::Finished(CopyOutcome::Cancelled)
        },
        (CopyState::Apply, CopyEvent::Applied) => CopyState::OfferUntracked,
        (CopyState::ApplyThreeWay, CopyEvent::ThreeWayApplied(ok)) => if ok {
            CopyState::OfferUntracked
        } else {
            CopyState::Finished(CopyOutcome::ThreeWayFailed)
        },
        (CopyState::OfferUntracked, CopyEvent::Answered(yes)) => if yes {
            CopyState::CopyUntracked { then_done: true }
        } else {
            CopyState::Finished(CopyOutcome::Done)
        },
        (CopyState::CopyUntracked { then_done }, CopyEvent::Copied) => if then_done {
            CopyState::Finished(CopyOutcome::Done)
        } else {
            CopyState::Finished(CopyOutcome::UntrackedOnlyFinished)
        },
        _ => state,
    }
}

/// The state that `event` leads to from `state` (see `spec_next_state`).
pub fn next_state(state: CopyState, event: CopyEvent) -> (r: CopyState)
    ensures
        r == spec_next_state(state, event),
{
    match (state, event) {
        (CopyState::Start, CopyEvent::Listed(n)) => if n <= 1 {
            CopyState::Finished(CopyOutcome::NoOtherWorktrees)
        } else {
            CopyState::ChooseSource
        },
        (CopyState::ChooseSource, CopyEvent::Chosen(chosen)) => if chosen {
            CopyState::CheckChanges
        } else {
            CopyState::Finished(CopyOutcome::Cancelled)
        },
        (CopyState::CheckChanges, CopyEvent::ChangesFound(found)) => if found {
            CopyState::ReadDiff
        } else {
            CopyState::Finished(CopyOutcome::NoChanges)
        },
        (CopyState::ReadDiff, CopyEvent::DiffRead { empty }) => if empty {
            CopyState::OfferUntrackedOnly
        } else {
            CopyState::CheckApply
        },
        (CopyState::OfferUntrackedOnly, CopyEvent::Answered(yes)) => if yes {
            CopyState::CopyUntracked { then_done: false }
        } else {
            CopyState::Finished(CopyOutcome::UntrackedOnlyFinished)
        },
        (CopyState::CheckApply, CopyEvent::ApplyChecked(clean)) => if clean {
            CopyState::ConfirmApply
        } else {
            CopyState::ConfirmThreeWay
        },
        (CopyState::ConfirmApply, CopyEvent::Answered(yes)) => if yes {
            CopyState::Apply
        } else {
            CopyState::Finished(CopyOutcome::Cancelled)
        },
        (CopyState::ConfirmThreeWay, CopyEvent::Answered(yes)) => if yes {
            CopyState::ApplyThreeWay
        } else {
            CopyState::Finished(CopyOutcome::Cancelled)
        },
        (CopyState::Apply, CopyEvent::Applied) => CopyState::OfferUntracked,
        (CopyState::ApplyThreeWay, CopyEvent::ThreeWayApplied(ok)) => if ok {
            CopyState::OfferUntracked
        } else {
            CopyState::Finished(CopyOutcome::ThreeWayFailed)
        },
        (CopyState::OfferUntracked, CopyEvent::Answered(yes)) => if yes {
            CopyState::CopyUntracked { then_done: true }
        } else {
            CopyState::Finished(CopyOutcome::Done)
        },
        (CopyState::CopyUntracked { then_done }, CopyEvent::Copied) => if then_done {
            CopyState::Finished(CopyOutcome::Done)
        } else {
            CopyState::Finished(CopyOutcome::UntrackedOnlyFinished)
        },
        _ => state,
    }
}

/// The diff is applied only after the user agreed to it: every way into
/// `Apply` or `ApplyThreeWay` is a yes to the matching question.
pub proof fn lemma_apply_needs_consent(state: CopyState, event: CopyEvent)
    ensures
        spec_next_state(state, event) == CopyState::Apply && state != CopyState::Apply ==> state
            == CopyState::ConfirmApply && event == CopyEvent::Answered(true),
        spec_next_state(state, event) == CopyState::ApplyThreeWay && state
            != CopyState::ApplyThreeWay ==> state == CopyState::ConfirmThreeWay && event
            == CopyEvent::Answered(true),
{
}

/// Once finished, copying stays finished.
pub proof fn lemma_finished_is_final(outcome: CopyOutcome, event: CopyEvent)
    ensures
        spec_next_state(CopyState::Finished(outcome), event) == CopyState::Finished(outcome),
{
}

/// Untracked files are copied only with the user's consent: every way
/// into copying them is a yes to one of the two offers to copy them, and a
/// no to either offer ends without copying.
pub proof fn lemma_untracked_need_consent(state: CopyState, event: CopyEvent)
    ensures
        (spec_next_state(state, event) is CopyUntracked) && !(state is CopyUntracked) ==> (state
            == CopyState::OfferUntracked || state == CopyState::OfferUntrackedOnly) && event
            == CopyEvent::Answered(true),
        spec_next_state(CopyState::OfferUntracked, CopyEvent::Answered(false)) == CopyState::Finished(
            CopyOutcome::Done,
        ),
        spec_next_state(CopyState::OfferUntracked, CopyEvent::Answered(true))
            == (CopyState::CopyUntracked { then_done: true }),
        spec_next_state(CopyState::OfferUntrackedOnly, CopyEvent::Answered(false))
            == CopyState::Finished(CopyOutcome::UntrackedOnlyFinished),
        spec_next_state(CopyState::OfferUntrackedOnly, CopyEvent::Answered(true))
            == (CopyState::CopyUntracked { then_done: false }),
{
}

/// Copying is cancelled only by the user: by abandoning the choice of a
/// worktree, or by a no to applying the diff or to the 3-way merge; and
/// each of those cancels it.
pub proof fn lemma_copy_cancelled_only_by_user(state: CopyState, event: CopyEvent)
    ensures
        spec_next_state(state, event) == CopyState::Finished(CopyOutcome::Cancelled) && state
            != CopyState::Finished(CopyOutcome::Cancelled) <==> (state == CopyState::ChooseSource
            && event == CopyEvent::Chosen(false)) || ((state == CopyState::ConfirmApply || state
            == CopyState::ConfirmThreeWay) && event == CopyEvent::Answered(false)),
{
}

/// Each step goes where its result says: with more than one worktree a
/// source is asked for, a chosen one is checked for changes, changes found
/// are read, a diff that is not empty is checked, a clean one is offered to
/// apply and one that is not a 3-way merge, a yes applies it, and an
/// applied diff (or a successful merge) offers the untracked files; no
/// other worktree, no changes, or a failed merge end it.
pub proof fn lemma_copy_goes_ahead(n: usize)
    ensures
        n > 1 ==> spec_next_state(CopyState::Start, CopyEvent::Listed(n)) == CopyState::ChooseSource,
        n <= 1 ==> spec_next_state(CopyState::Start, CopyEvent::Listed(n)) == CopyState::Finished(
            CopyOutcome::NoOtherWorktrees,
        ),
        spec_next_state(CopyState::ChooseSource, CopyEvent::Chosen(true)) == CopyState::CheckChanges,
        spec_next_state(CopyState::CheckChanges, CopyEvent::ChangesFound(true))
            == CopyState::ReadDiff,
        spec_next_state(CopyState::CheckChanges, CopyEvent::ChangesFound(false))
            == CopyState::Finished(CopyOutcome::NoChanges),
        spec_next_state(CopyState::ReadDiff, (CopyEvent::DiffRead { empty: false }))
            == CopyState::CheckApply,
        spec_next_state(CopyState::ReadDiff, (CopyEvent::DiffRead { empty: true }))
            == CopyState::OfferUntrackedOnly,
        spec_next_state(CopyState::CheckApply, CopyEvent::ApplyChecked(true))
            == CopyState::ConfirmApply,
        spec_next_state(CopyState::CheckApply, CopyEvent::ApplyChecked(false))
            == CopyState::ConfirmThreeWay,
        spec_next_state(CopyState::ConfirmApply, CopyEvent::Answered(true)) == CopyState::Apply,
        spec_next_state(CopyState::ConfirmThreeWay, CopyEvent::Answered(true))
            == CopyState::ApplyThreeWay,
        spec_next_state(CopyState::Apply, CopyEvent::Applied) == CopyState::OfferUntracked,
        spec_next_state(CopyState::ApplyThreeWay, CopyEvent::ThreeWayApplied(true))
            == CopyState::OfferUntracked,
        spec_next_state(CopyState::ApplyThreeWay, CopyEvent::ThreeWayApplied(false))
            == CopyState::Finished(CopyOutcome::ThreeWayFailed),
        spec_next_state((CopyState::CopyUntracked { then_done: true }), CopyEvent::Copied)
            == CopyState::Finished(CopyOutcome::Done),
        spec_next_state((CopyState::CopyUntracked { then_done: false }), CopyEvent::Copied)
            == CopyState::Finished(CopyOutcome::UntrackedOnlyFinished),
{
}

} // verus!
