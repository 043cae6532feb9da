use git_worktree_copse::actions::create::{
    build_worktree_path, pathdiff_relative, sanitize_branch_name, worktree_branch_names,
    worktree_display_path, worktree_folder_name, worktree_parent_dir, CreateError, CreateMode,
};
use git_worktree_copse::git::{GitRef, GitRefType};
use git_worktree_copse::path::PathStyle;

const U: PathStyle = PathStyle::Unix;
const W: PathStyle = PathStyle::Windows;

#[test]
fn builds_worktree_path_under_worktree_directory() {
    let path = build_worktree_path(U, "/tmp/copse-test-1/ProjectA", "ProjectA", "feature-1", None);
    assert_eq!(path, "/tmp/copse-test-1/worktree/ProjectA/feature-1");
}

#[test]
fn sanitizes_branch_name_in_worktree_path() {
    let path = build_worktree_path(U, "/tmp/copse-test-2/ProjectA", "ProjectA", "feature/test:1", None);
    assert_eq!(path, "/tmp/copse-test-2/worktree/ProjectA/feature_test_1");
}

#[test]
fn computes_relative_path_for_nested_worktree_directory() {
    let relative = pathdiff_relative(U, 
        "/tmp/copse-test-3/ProjectA",
        "/tmp/copse-test-3/worktree/ProjectA/feature-1",
        None,
    );
    assert_eq!(relative, "../worktree/ProjectA/feature-1");
}

#[test]
fn build_worktree_path_uses_resolved_parent() {
    let path = build_worktree_path(U, 
        "/home/me/src/Copse",
        "Copse",
        "fix",
        Some("\\\\?\\/real/src"),
    );
    assert_eq!(path, "/real/src/worktree/Copse/fix");
}

#[test]
fn build_worktree_path_at_root_parent() {
    // "/" has no parent: the worktree folder goes under "/".
    assert_eq!(worktree_parent_dir(U, "/"), "/");
    assert_eq!(build_worktree_path(U, "/", "r", "b", None), "/worktree/r/b");
    assert_eq!(worktree_parent_dir(U, "/Repo"), "/");
    assert_eq!(build_worktree_path(U, "/Repo", "Repo", "b", None), "/worktree/Repo/b");
}

#[test]
fn worktree_parent_dir_drops_last_component() {
    assert_eq!(worktree_parent_dir(U, "/a/b/c"), "/a/b");
    assert_eq!(worktree_parent_dir(U, "/a/b/c/"), "/a/b");
    assert_eq!(worktree_parent_dir(U, "a"), "");
}

#[test]
fn sanitize_replaces_every_unsafe_character() {
    assert_eq!(sanitize_branch_name("a/b\\c:d*e?f\"g<h>i|j"), "a_b_c_d_e_f_g_h_i_j");
    assert_eq!(sanitize_branch_name("plain-name_1.2"), "plain-name_1.2");
    assert_eq!(sanitize_branch_name(""), "");
    // sanitizing twice changes nothing
    let once = sanitize_branch_name("feat/x:y");
    assert_eq!(sanitize_branch_name(&once), once);
}

#[test]
fn relative_path_of_same_directory_is_dot() {
    assert_eq!(pathdiff_relative(U, "/a/b", "/a/b", None), ".");
    assert_eq!(pathdiff_relative(U, "/a/b/", "/a//b", None), ".");
}

#[test]
fn relative_path_goes_up_and_down() {
    assert_eq!(pathdiff_relative(U, "/a/b/c", "/a/x/y", None), "../../x/y");
    assert_eq!(pathdiff_relative(U, "/a", "/a/b/c", None), "b/c");
    assert_eq!(pathdiff_relative(U, "/a/b", "/", None), "../..");
}

#[test]
fn relative_path_uses_resolved_base_and_relative_target() {
    // the resolved base wins over the base as written
    assert_eq!(pathdiff_relative(U, "/link/p", "/real/q", Some("/real/p")), "../q");
    // a relative target is taken from the base
    assert_eq!(pathdiff_relative(U, "/a/b", "c/d", None), "c/d");
    // the `\\?\` prefix is dropped from the base
    assert_eq!(pathdiff_relative(U, "x", "/a/b/c", Some("\\\\?\\/a/b")), "c");
}

#[test]
fn relative_path_joined_to_base_reaches_target() {
    let base = "/home/u/Copse";
    let target = "/home/u/worktree/Copse/feat";
    let rel = pathdiff_relative(U, base, target, None);
    let joined = std::path::Path::new(base).join(&rel);
    let mut resolved: Vec<String> = Vec::new();
    for c in joined.components() {
        match c {
            std::path::Component::ParentDir => {
                resolved.pop();
            }
            std::path::Component::CurDir => {}
            other => resolved.push(other.as_os_str().to_string_lossy().into_owned()),
        }
    }
    let expected: Vec<String> = std::path::Path::new(target)
        .components()
        .map(|c| c.as_os_str().to_string_lossy().into_owned())
        .collect();
    assert_eq!(resolved, expected);
}

fn git_ref(name: &str, t: GitRefType) -> GitRef {
    GitRef { name: name.to_string(), display: String::new(), ref_type: t }
}

#[test]
fn folder_name_strips_remote() {
    assert_eq!(worktree_folder_name(&git_ref("origin/feature-1", GitRefType::RemoteBranch)), "feature-1");
    assert_eq!(worktree_folder_name(&git_ref("origin/feat/deep", GitRefType::RemoteBranch)), "feat/deep");
    assert_eq!(worktree_folder_name(&git_ref("noslash", GitRefType::RemoteBranch)), "");
    assert_eq!(worktree_folder_name(&git_ref("origin/x", GitRefType::LocalBranch)), "origin/x");
    assert_eq!(worktree_folder_name(&git_ref("v1.0", GitRefType::LocalTag)), "v1.0");
}

#[test]
fn branch_names_for_new_branch_and_direct_modes() {
    let r = git_ref("origin/main", GitRefType::RemoteBranch);
    assert_eq!(CreateMode::from_choice(0), CreateMode::NewBranch);
    assert_eq!(CreateMode::from_choice(1), CreateMode::FromRef);
    let (folder, new_branch) = worktree_branch_names(&r, CreateMode::NewBranch, "topic").unwrap();
    assert_eq!(folder, "topic");
    assert_eq!(new_branch, Some("topic".to_string()));
    let (folder, new_branch) = worktree_branch_names(&r, CreateMode::FromRef, "").unwrap();
    assert_eq!(folder, "main");
    assert_eq!(new_branch, None);
    let e = worktree_branch_names(&r, CreateMode::NewBranch, "  \t ").unwrap_err();
    assert_eq!(e, CreateError::EmptyBranchName);
    assert_eq!(e.message(), "Branch name cannot be empty");
}

#[test]
fn display_path_is_absolute_or_relative() {
    assert_eq!(worktree_display_path(U, true, "/a/worktree/R/b", "/a/R", None), "/a/worktree/R/b");
    assert_eq!(worktree_display_path(U, false, "/a/worktree/R/b", "/a/R", None), "../worktree/R/b");
}

#[test]
fn windows_worktree_path_and_relative_display() {
    assert_eq!(worktree_parent_dir(W, "C:/Users/me/Copse"), "C:/Users/me");
    assert_eq!(
        build_worktree_path(W, "C:/Users/me/Copse", "Copse", "feat/x", Some("\\\\?\\C:\\Users\\me")),
        "C:\\Users\\me\\worktree\\Copse\\feat_x"
    );
    assert_eq!(
        build_worktree_path(W, "C:/Users/me/Copse", "Copse", "b", None),
        "C:/Users/me\\worktree\\Copse\\b"
    );
    // the drive letter is compared whatever its case, and both separators split
    assert_eq!(
        pathdiff_relative(W, "x", "C:\\Users\\me\\worktree\\Copse\\b", Some("\\\\?\\c:\\Users\\me\\Copse")),
        "..\\worktree\\Copse\\b"
    );
    assert_eq!(pathdiff_relative(W, "C:/a/b", "C:\\a\\b", None), ".");
    // another drive: the target itself
    assert_eq!(pathdiff_relative(W, "C:\\a", "D:\\x\\y", None), "D:\\x\\y");
    // a relative target is taken from the base
    assert_eq!(pathdiff_relative(W, "C:\\a", "b\\c", None), "b\\c");
}

#[test]
fn parent_keeps_the_spelling() {
    assert_eq!(worktree_parent_dir(U, "/a//b/c"), "/a//b");
    assert_eq!(worktree_parent_dir(U, "/x/./y/Repo"), "/x/./y");
    assert_eq!(build_worktree_path(U, "/a//b/R", "R", "f", None), "/a//b/worktree/R/f");
}

#[test]
fn unc_worktree_path_and_relative_display() {
    assert_eq!(worktree_parent_dir(W, "//srv/share/Copse"), "//srv/share/");
    assert_eq!(
        build_worktree_path(W, "//srv/share/Copse", "Copse", "f", None),
        "//srv/share/worktree\\Copse\\f"
    );
    assert_eq!(
        pathdiff_relative(W, "//srv/share/Copse", "\\\\srv\\share\\worktree\\Copse\\f", None),
        "..\\worktree\\Copse\\f"
    );
}

#[test]
fn relative_path_to_another_drive_is_the_target() {
    // on another drive the target comes back whole, spelled with `\`
    assert_eq!(pathdiff_relative(W, "C:\\a\\b", "D:/x/y", None), "D:\\x\\y");
    assert_eq!(pathdiff_relative(W, "C:\\a", "//srv/share/x", None), "//srv/share\\x");
}
