use git_worktree_copse::git::{
    create_worktree_args, create_worktree_new_branch_args, delete_branch_args, expect_success,
    find_main_worktree, get_all_refs, get_main_worktree_root, get_repo_name, get_repo_root,
    get_worktree_diff, list_worktrees, remove_worktree_args, strip_unc_prefix,
    untracked_file_copies, worktree_has_changes, CommandOutput, GitAction, GitError, GitRefType,
    Worktree,
};
use git_worktree_copse::path::PathStyle;

fn ok(stdout: &str) -> CommandOutput {
    CommandOutput { success: true, stdout: stdout.to_string(), stderr: String::new() }
}

fn failed(stderr: &str) -> CommandOutput {
    CommandOutput { success: false, stdout: String::new(), stderr: stderr.to_string() }
}

#[test]
fn sort_order_and_label_of_each_kind() {
    assert_eq!(GitRefType::LocalBranch.sort_order(), 0);
    assert_eq!(GitRefType::RemoteBranch.sort_order(), 1);
    assert_eq!(GitRefType::LocalTag.sort_order(), 2);
    assert_eq!(GitRefType::RemoteTag.sort_order(), 3);
    assert_eq!(GitRefType::LocalBranch.label(), "Local Branch");
    assert_eq!(GitRefType::RemoteBranch.label(), "Remote Branch");
    assert_eq!(GitRefType::LocalTag.label(), "Local Tag");
    assert_eq!(GitRefType::RemoteTag.label(), "Remote Tag");
}

#[test]
fn refs_are_sorted_by_kind_then_name() {
    let refs = get_all_refs(
        &ok("main\n  zeta\nalpha\n\n"),
        &ok("origin/HEAD -> origin/main\norigin/main\norigin/dev\n"),
        &ok("v2\nv1\n"),
        &ok("abc\trefs/tags/v1\nabd\trefs/tags/v1^{}\nabe\trefs/tags/v3\n\nbroken line\n"),
    );
    let got: Vec<(String, String, GitRefType)> =
        refs.iter().map(|r| (r.name.clone(), r.display.clone(), r.ref_type)).collect();
    let expected = vec![
        ("alpha".to_string(), "[Local Branch] alpha".to_string(), GitRefType::LocalBranch),
        ("main".to_string(), "[Local Branch] main".to_string(), GitRefType::LocalBranch),
        ("zeta".to_string(), "[Local Branch] zeta".to_string(), GitRefType::LocalBranch),
        ("origin/dev".to_string(), "[Remote Branch] origin/dev".to_string(), GitRefType::RemoteBranch),
        ("origin/main".to_string(), "[Remote Branch] origin/main".to_string(), GitRefType::RemoteBranch),
        ("v1".to_string(), "[Local Tag] v1".to_string(), GitRefType::LocalTag),
        ("v2".to_string(), "[Local Tag] v2".to_string(), GitRefType::LocalTag),
        ("v3".to_string(), "[Remote Tag] v3".to_string(), GitRefType::RemoteTag),
    ];
    assert_eq!(got, expected);
}

#[test]
fn failed_listings_contribute_nothing() {
    let refs = get_all_refs(&failed("x"), &ok("origin/a\n"), &failed("y"), &failed("z"));
    assert_eq!(refs.len(), 1);
    assert_eq!(refs[0].name, "origin/a");
    assert_eq!(refs[0].ref_type, GitRefType::RemoteBranch);
}

#[test]
fn names_are_ordered_like_strings() {
    let names = "b\nB\na\u{e9}\nab\na\n\u{1F600}\nZ\n";
    let refs = get_all_refs(&ok(names), &ok(""), &ok(""), &ok(""));
    let got: Vec<String> = refs.iter().map(|r| r.name.clone()).collect();
    let mut expected: Vec<String> = names.lines().map(|s| s.to_string()).collect();
    expected.sort();
    assert_eq!(got, expected);
}

#[test]
fn remote_tags_keep_field_without_prefix() {
    // a field without the refs/tags/ prefix is kept as it is; CRLF endings are handled
    let refs = get_all_refs(&ok(""), &ok(""), &ok(""), &ok("s1\tother/x\textra\r\ns2\trefs/tags/y\r\n"));
    let got: Vec<String> = refs.iter().map(|r| r.name.clone()).collect();
    assert_eq!(got, vec!["other/x".to_string(), "y".to_string()]);
}

#[test]
fn worktrees_are_parsed_from_porcelain() {
    let out = ok("worktree /repo\nHEAD abc\nbranch refs/heads/main\n\nworktree /wt/feature\nHEAD def\nbranch refs/heads/feature/x\n\nworktree /wt/detached\nHEAD 123\ndetached\n\nworktree /bare\nbare\n");
    let ws = list_worktrees(&out).unwrap();
    let got: Vec<(String, String, bool, bool)> =
        ws.iter().map(|w| (w.path.clone(), w.branch.clone(), w.is_main, w.is_bare)).collect();
    assert_eq!(
        got,
        vec![
            ("/repo".to_string(), "main".to_string(), true, false),
            ("/wt/feature".to_string(), "feature/x".to_string(), false, false),
            ("/wt/detached".to_string(), "".to_string(), false, false),
            ("/bare".to_string(), "".to_string(), false, true),
        ]
    );
}

#[test]
fn list_worktrees_reports_failure() {
    match list_worktrees(&failed("fatal: nope")) {
        Err(GitError::CommandFailed { action, stderr }) => {
            assert_eq!(action, GitAction::ListWorktrees);
            assert_eq!(stderr, "fatal: nope");
        }
        other => panic!("unexpected: {:?}", other),
    }
    let e = list_worktrees(&failed("boom")).unwrap_err();
    assert_eq!(e.message(), "Failed to list worktrees: boom");
}

#[test]
fn main_worktree_root_is_first_listed() {
    let out = ok("worktree /main/Copse\nbranch refs/heads/main\n\nworktree /w/Copse/f\nbranch refs/heads/f\n");
    assert_eq!(get_main_worktree_root(&out).unwrap(), "/main/Copse");
    assert!(matches!(get_main_worktree_root(&ok("")), Err(GitError::NoMainWorktree)));
    assert_eq!(GitError::NoMainWorktree.message(), "Could not find main worktree");
}

#[test]
fn find_main_worktree_finds_it_anywhere() {
    let w = |p: &str, m: bool| Worktree { path: p.to_string(), branch: String::new(), is_main: m, is_bare: false };
    let ws = vec![w("/a", false), w("/b", true), w("/c", false)];
    assert_eq!(find_main_worktree(&ws).unwrap().path, "/b");
    let none = vec![w("/a", false)];
    assert!(find_main_worktree(&none).is_none());
}

#[test]
fn repo_root_and_name() {
    assert_eq!(get_repo_root(&ok("  /home/u/Copse\n")).unwrap(), "/home/u/Copse");
    assert!(matches!(get_repo_root(&failed("")), Err(GitError::NotInRepository)));
    assert_eq!(get_repo_name(PathStyle::Unix, &ok("/home/u/Copse\n")).unwrap(), "Copse");
    assert!(matches!(get_repo_name(PathStyle::Unix, &ok("/\n")), Err(GitError::NoRepositoryName)));
    assert_eq!(GitError::NotInRepository.message(), "Not inside a git repository");
    assert_eq!(GitError::NoRepositoryName.message(), "Could not determine repository name");
}

#[test]
fn command_arguments() {
    assert_eq!(create_worktree_args("/p", "b"), vec!["worktree", "add", "/p", "b"]);
    assert_eq!(
        create_worktree_new_branch_args("/p", "nb", "origin/main"),
        vec!["worktree", "add", "-b", "nb", "/p", "origin/main"]
    );
    assert_eq!(remove_worktree_args("/p", false), vec!["worktree", "remove", "/p"]);
    assert_eq!(remove_worktree_args("/p", true), vec!["worktree", "remove", "/p", "--force"]);
    assert_eq!(delete_branch_args("b", false), vec!["branch", "-d", "b"]);
    assert_eq!(delete_branch_args("b", true), vec!["branch", "-D", "b"]);
}

#[test]
fn command_outcome_and_messages() {
    assert!(expect_success(&ok("x"), GitAction::RemoveWorktree).is_ok());
    let e = expect_success(&failed("locked"), GitAction::RemoveWorktree).unwrap_err();
    assert_eq!(e.message(), "Failed to remove worktree: locked");
    let e = expect_success(&failed("e"), GitAction::ApplyDiffThreeWay).unwrap_err();
    assert_eq!(e.message(), "Failed to apply diff (some conflicts may remain): e");
    let e = expect_success(&failed("e"), GitAction::CreateWorktree).unwrap_err();
    assert_eq!(e.message(), "Failed to create worktree: e");
    let e = expect_success(&failed("e"), GitAction::DeleteBranch).unwrap_err();
    assert_eq!(e.message(), "Failed to delete branch: e");
    let e = expect_success(&failed("e"), GitAction::ApplyDiff).unwrap_err();
    assert_eq!(e.message(), "Failed to apply diff: e");
}

#[test]
fn status_decides_changes() {
    assert_eq!(worktree_has_changes(&ok(" M src/lib.rs\n")).unwrap(), true);
    assert_eq!(worktree_has_changes(&ok(" \n\t\n")).unwrap(), false);
    assert_eq!(worktree_has_changes(&ok("")).unwrap(), false);
    let e = worktree_has_changes(&failed("not a repo")).unwrap_err();
    assert_eq!(e.message(), "Failed to check worktree status: not a repo");
}

#[test]
fn diff_combines_unstaged_and_staged() {
    assert_eq!(get_worktree_diff("", ""), "");
    assert_eq!(get_worktree_diff("U", ""), "U");
    assert_eq!(get_worktree_diff("", "S"), "S");
    assert_eq!(get_worktree_diff("U\n", "S\n"), "U\n\nS\n");
}

#[test]
fn untracked_files_become_copies() {
    let copies = untracked_file_copies(PathStyle::Unix, "a.txt\n  dir/b.txt \n\n", "/src/wt", "/dst/wt/");
    assert_eq!(copies.len(), 2);
    assert_eq!(copies[0].source, "/src/wt/a.txt");
    assert_eq!(copies[0].dest, "/dst/wt/a.txt");
    assert_eq!(copies[0].dest_dir, Some("/dst/wt".to_string()));
    assert_eq!(copies[1].source, "/src/wt/dir/b.txt");
    assert_eq!(copies[1].dest, "/dst/wt/dir/b.txt");
    assert_eq!(copies[1].dest_dir, Some("/dst/wt/dir".to_string()));
}

#[test]
fn unc_prefix_is_stripped_once() {
    assert_eq!(strip_unc_prefix("\\\\?\\C:\\x"), "C:\\x");
    assert_eq!(strip_unc_prefix("/plain"), "/plain");
    assert_eq!(strip_unc_prefix("\\\\?"), "\\\\?");
}

#[test]
fn repo_name_on_windows() {
    assert_eq!(get_repo_name(PathStyle::Windows, &ok("C:/Users/u/Copse\n")).unwrap(), "Copse");
    assert!(matches!(get_repo_name(PathStyle::Windows, &ok("C:/\n")), Err(GitError::NoRepositoryName)));
}

#[test]
fn untracked_files_on_windows() {
    let copies = untracked_file_copies(PathStyle::Windows, "dir/b.txt\n", "C:\\src", "C:\\dst\\");
    assert_eq!(copies.len(), 1);
    assert_eq!(copies[0].source, "C:\\src\\dir/b.txt");
    assert_eq!(copies[0].dest, "C:\\dst\\dir/b.txt");
    assert_eq!(copies[0].dest_dir, Some("C:\\dst\\dir".to_string()));
}

#[test]
fn same_outputs_give_the_same_refs() {
    let outs = [
        ok("b\na\n"),
        ok("origin/x\n"),
        ok("t2\nt1\n"),
        ok("h\trefs/tags/t3\n"),
    ];
    let first = get_all_refs(&outs[0], &outs[1], &outs[2], &outs[3]);
    let second = get_all_refs(&outs[0], &outs[1], &outs[2], &outs[3]);
    let view = |v: &Vec<git_worktree_copse::git::GitRef>| -> Vec<(String, String, GitRefType)> {
        v.iter().map(|r| (r.name.clone(), r.display.clone(), r.ref_type)).collect()
    };
    assert_eq!(view(&first), view(&second));
    // the order of the listed lines does not matter
    let shuffled = get_all_refs(&ok("a\nb\n"), &outs[1], &ok("t1\nt2\n"), &outs[3]);
    assert_eq!(view(&first), view(&shuffled));
}

#[test]
fn trailing_blank_line_changes_nothing() {
    let s = "worktree /r\nbranch refs/heads/main\n\nworktree /w\nbranch refs/heads/f";
    let paths = |out: &str| -> Vec<(String, String, bool)> {
        list_worktrees(&ok(out)).unwrap().iter().map(|w| (w.path.clone(), w.branch.clone(), w.is_main)).collect()
    };
    let base = paths(s);
    assert_eq!(base.len(), 2);
    assert_eq!(paths(&format!("{}\n", s)), base);
    assert_eq!(paths(&format!("{}\n\n", s)), base);
    assert_eq!(paths(&format!("{}\r\n", s)), base);
    // a final carriage return without a line ending stays in the branch name
    assert_eq!(paths(&format!("{}\r", s))[1].1, "f\r");
}

#[test]
fn final_carriage_return_matters_only_when_read() {
    let paths = |out: &str| -> Vec<(String, String, bool, bool)> {
        list_worktrees(&ok(out))
            .unwrap()
            .iter()
            .map(|w| (w.path.clone(), w.branch.clone(), w.is_main, w.is_bare))
            .collect()
    };
    // an ignored last line: the carriage return changes nothing
    let s = "worktree /r\nbranch refs/heads/main\nlocked\r";
    assert_eq!(paths(&format!("{}\n", s)), paths(s));
    // a lone carriage return after an entry: nothing either
    let s = "worktree /r\n\r";
    assert_eq!(paths(&format!("{}\n", s)), paths(s));
    // a `bare` line keeps its carriage return unless the line is ended
    let s = "worktree /r\nbare\r";
    assert!(!paths(s)[0].3);
    assert!(paths(&format!("{}\n", s))[0].3);
    // a `worktree` line keeps it in the path
    let s = "worktree /r\r";
    assert_ne!(paths(&format!("{}\n", s)), paths(s));
}
