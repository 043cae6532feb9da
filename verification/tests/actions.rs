use git_worktree_copse::actions::copy_changes::{next_state, CopyEvent, CopyOutcome, CopyState};
use git_worktree_copse::actions::delete::{
    branch_to_delete, confirmation_line, delete_item_label, must_confirm_discard,
    next_delete_state, removable_worktrees, DeleteEvent, DeleteMode, DeleteOutcome, DeleteState,
    ResolvedWorktree,
};
use git_worktree_copse::actions::move_to::{cd_marker, has_other_worktrees, worktree_choice_label};
use git_worktree_copse::cli::{Action, Cli};
use git_worktree_copse::git::Worktree;
use git_worktree_copse::path::PathStyle;

fn wt(path: &str, branch: &str, main: bool) -> Worktree {
    Worktree { path: path.to_string(), branch: branch.to_string(), is_main: main, is_bare: false }
}

#[test]
fn choice_labels_mark_main_and_detached() {
    assert_eq!(worktree_choice_label(&wt("/r", "main", true)), "/r [main] (main)");
    assert_eq!(worktree_choice_label(&wt("/w", "f", false)), "/w [f] ");
    assert_eq!(worktree_choice_label(&wt("/d", "", false)), "/d (detached HEAD) ");
}

#[test]
fn cd_marker_line() {
    assert_eq!(cd_marker("/x/y"), "COPSE_CD:/x/y");
}

#[test]
fn other_worktrees_need_more_than_one() {
    assert!(!has_other_worktrees(&vec![wt("/r", "m", true)]));
    assert!(has_other_worktrees(&vec![wt("/r", "m", true), wt("/w", "f", false)]));
}

#[test]
fn removable_excludes_main_and_current() {
    let cands = vec![
        ResolvedWorktree { worktree: wt("/r", "main", true), resolved_path: None },
        ResolvedWorktree { worktree: wt("/w/a", "a", false), resolved_path: Some("/real/w/a".to_string()) },
        ResolvedWorktree { worktree: wt("/w/b", "b", false), resolved_path: None },
        ResolvedWorktree { worktree: wt("/w/c", "", false), resolved_path: Some("\\\\?\\/w/c".to_string()) },
    ];
    // started inside /real/w/a/src: that worktree is not offered
    let r = removable_worktrees(PathStyle::Unix, &cands, "/real/w/a/src");
    let paths: Vec<String> = r.iter().map(|w| w.path.clone()).collect();
    assert_eq!(paths, vec!["/w/b".to_string(), "/w/c".to_string()]);
    // started in /w/c exactly (after the prefix is dropped)
    let r = removable_worktrees(PathStyle::Unix, &cands, "/w/c/");
    let paths: Vec<String> = r.iter().map(|w| w.path.clone()).collect();
    assert_eq!(paths, vec!["/w/a".to_string(), "/w/b".to_string()]);
}

#[test]
fn delete_labels_and_modes() {
    assert_eq!(delete_item_label(&wt("/w", "f", false)), "/w [f]");
    assert_eq!(delete_item_label(&wt("/w", "", false)), "/w (detached HEAD)");
    assert_eq!(confirmation_line(&wt("/w", "f", false)), "  /w [f]");
    assert_eq!(DeleteMode::from_choice(0), DeleteMode { force: false, delete_branch: false });
    assert_eq!(DeleteMode::from_choice(1), DeleteMode { force: true, delete_branch: false });
    assert_eq!(DeleteMode::from_choice(2), DeleteMode { force: false, delete_branch: true });
    assert_eq!(DeleteMode::from_choice(3), DeleteMode { force: true, delete_branch: true });
}

#[test]
fn discard_confirmation_and_branch_deletion() {
    let plain = DeleteMode { force: false, delete_branch: true };
    let forced = DeleteMode { force: true, delete_branch: false };
    assert!(must_confirm_discard(plain, &vec![None, Some(false), Some(true)]));
    assert!(!must_confirm_discard(plain, &vec![None, Some(false)]));
    assert!(!must_confirm_discard(forced, &vec![Some(true)]));
    assert_eq!(branch_to_delete(&wt("/w", "f", false), plain), Some("f".to_string()));
    assert_eq!(branch_to_delete(&wt("/w", "", false), plain), None);
    assert_eq!(branch_to_delete(&wt("/w", "f", false), forced), None);
}

#[test]
fn copy_changes_clean_apply_path() {
    let mut s = CopyState::Start;
    for e in [
        CopyEvent::Listed(2),
        CopyEvent::Chosen(true),
        CopyEvent::ChangesFound(true),
        CopyEvent::DiffRead { empty: false },
        CopyEvent::ApplyChecked(true),
        CopyEvent::Answered(true),
    ] {
        s = next_state(s, e);
    }
    assert_eq!(s, CopyState::Apply);
    s = next_state(s, CopyEvent::Applied);
    assert_eq!(s, CopyState::OfferUntracked);
    s = next_state(s, CopyEvent::Answered(true));
    assert_eq!(s, CopyState::CopyUntracked { then_done: true });
    s = next_state(s, CopyEvent::Copied);
    assert_eq!(s, CopyState::Finished(CopyOutcome::Done));
}

#[test]
fn copy_changes_stops_early() {
    assert_eq!(next_state(CopyState::Start, CopyEvent::Listed(1)), CopyState::Finished(CopyOutcome::NoOtherWorktrees));
    assert_eq!(next_state(CopyState::ChooseSource, CopyEvent::Chosen(false)), CopyState::Finished(CopyOutcome::Cancelled));
    assert_eq!(next_state(CopyState::CheckChanges, CopyEvent::ChangesFound(false)), CopyState::Finished(CopyOutcome::NoChanges));
    assert_eq!(next_state(CopyState::ReadDiff, CopyEvent::DiffRead { empty: true }), CopyState::OfferUntrackedOnly);
    assert_eq!(next_state(CopyState::OfferUntrackedOnly, CopyEvent::Answered(false)), CopyState::Finished(CopyOutcome::UntrackedOnlyFinished));
    assert_eq!(next_state(CopyState::CheckApply, CopyEvent::ApplyChecked(false)), CopyState::ConfirmThreeWay);
    assert_eq!(next_state(CopyState::ConfirmThreeWay, CopyEvent::Answered(false)), CopyState::Finished(CopyOutcome::Cancelled));
    assert_eq!(next_state(CopyState::ApplyThreeWay, CopyEvent::ThreeWayApplied(false)), CopyState::Finished(CopyOutcome::ThreeWayFailed));
    // an event that does not answer the state leaves it
    assert_eq!(next_state(CopyState::ConfirmApply, CopyEvent::Copied), CopyState::ConfirmApply);
}

#[test]
fn cli_and_menu_actions() {
    let cli = Cli { verbose: true, absolute_path: false };
    assert!(cli.verbose && !cli.absolute_path);
    assert_eq!(Action::from_index(0), Some(Action::Create));
    assert_eq!(Action::from_index(1), Some(Action::Delete));
    assert_eq!(Action::from_index(2), Some(Action::MoveTo));
    assert_eq!(Action::from_index(3), Some(Action::CopyChanges));
    assert_eq!(Action::from_index(4), None);
    assert_eq!(Action::MoveTo.name(), "move-to");
    assert_eq!(Action::CopyChanges.name(), "copy-changes");
}

#[test]
fn removable_on_windows_compares_by_components() {
    let cands = vec![
        ResolvedWorktree { worktree: wt("C:/r", "main", true), resolved_path: None },
        ResolvedWorktree {
            worktree: wt("C:/w/a", "a", false),
            resolved_path: Some("\\\\?\\C:\\w\\a".to_string()),
        },
        ResolvedWorktree { worktree: wt("C:/w/b", "b", false), resolved_path: None },
    ];
    let r = removable_worktrees(PathStyle::Windows, &cands, "\\\\?\\c:\\w\\a\\src");
    let paths: Vec<String> = r.iter().map(|w| w.path.clone()).collect();
    assert_eq!(paths, vec!["C:/w/b".to_string()]);
}

fn run_delete(events: &[DeleteEvent]) -> Vec<DeleteState> {
    let mut state = DeleteState::Start;
    let mut seen = vec![state];
    for e in events {
        state = next_delete_state(state, *e);
        seen.push(state);
    }
    seen
}

#[test]
fn delete_steps_with_branches() {
    let mode = DeleteMode::from_choice(2);
    let seen = run_delete(&[
        DeleteEvent::Found(3),
        DeleteEvent::Selected(2),
        DeleteEvent::ModeChosen(mode),
        DeleteEvent::ChangesChecked(true),
        DeleteEvent::Answered(true),
        DeleteEvent::Answered(true),
        DeleteEvent::Removed { ok: true, has_branch: true },
        DeleteEvent::BranchDone,
        DeleteEvent::Removed { ok: false, has_branch: true },
    ]);
    assert_eq!(seen[1], DeleteState::ChooseWorktrees);
    assert_eq!(seen[2], DeleteState::ChooseMode { count: 2 });
    assert_eq!(seen[3], DeleteState::CheckChanges { mode, count: 2 });
    assert_eq!(seen[4], DeleteState::ConfirmDiscard { mode, count: 2 });
    assert_eq!(seen[5], DeleteState::ConfirmDeletion { mode, count: 2 });
    assert_eq!(seen[6], DeleteState::Remove { mode, index: 0, count: 2 });
    assert_eq!(seen[7], DeleteState::DeleteBranch { mode, index: 0, count: 2 });
    assert_eq!(seen[8], DeleteState::Remove { mode, index: 1, count: 2 });
    // a failed removal skips the branch and ends the list
    assert_eq!(seen[9], DeleteState::Finished(DeleteOutcome::Done));
}

#[test]
fn delete_steps_that_stop_early() {
    assert_eq!(run_delete(&[DeleteEvent::Found(0)])[1], DeleteState::Finished(DeleteOutcome::NothingToDelete));
    assert_eq!(
        run_delete(&[DeleteEvent::Found(2), DeleteEvent::Selected(0)])[2],
        DeleteState::Finished(DeleteOutcome::NoneSelected)
    );
    assert_eq!(
        run_delete(&[DeleteEvent::Found(2), DeleteEvent::Selected(1), DeleteEvent::ModeCancelled])[3],
        DeleteState::Finished(DeleteOutcome::Cancelled)
    );
    let plain = DeleteMode::from_choice(0);
    let seen = run_delete(&[
        DeleteEvent::Found(2),
        DeleteEvent::Selected(1),
        DeleteEvent::ModeChosen(plain),
        DeleteEvent::ChangesChecked(true),
        DeleteEvent::Answered(false),
    ]);
    assert_eq!(seen[5], DeleteState::Finished(DeleteOutcome::Cancelled));
    let force = DeleteMode::from_choice(1);
    let seen = run_delete(&[
        DeleteEvent::Found(2),
        DeleteEvent::Selected(1),
        DeleteEvent::ModeChosen(force),
        DeleteEvent::Answered(false),
    ]);
    assert_eq!(seen[3], DeleteState::ConfirmDeletion { mode: force, count: 1 });
    assert_eq!(seen[4], DeleteState::Finished(DeleteOutcome::Cancelled));
    // branches kept: no branch step after a removal
    let seen = run_delete(&[
        DeleteEvent::Found(1),
        DeleteEvent::Selected(1),
        DeleteEvent::ModeChosen(force),
        DeleteEvent::Answered(true),
        DeleteEvent::Removed { ok: true, has_branch: true },
        DeleteEvent::BranchDone,
    ]);
    assert_eq!(seen[5], DeleteState::Finished(DeleteOutcome::Done));
    assert_eq!(seen[6], DeleteState::Finished(DeleteOutcome::Done));
}
