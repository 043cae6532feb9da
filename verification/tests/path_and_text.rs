use git_worktree_copse::git::untracked_file_copies;
use git_worktree_copse::path::{
    file_name_of, is_absolute_path, parent, path_components, push_path, same_path_chars,
    starts_with_path, PathStyle,
};
use git_worktree_copse::text::{chars_of, trimmed};

fn comps(p: &str) -> Vec<String> {
    path_components(PathStyle::Unix, &chars_of(p)).iter().map(|c| c.iter().collect()).collect()
}

fn std_comps(p: &str) -> Vec<String> {
    std::path::Path::new(p).components().map(|c| c.as_os_str().to_string_lossy().into_owned()).collect()
}

const SAMPLES: &[&str] = &[
    "", "/", "//", "a", "/a", "a/", "a//b", "./a", ".", "./", "a/./b", "/./a", "../a", "a/..",
    "/a/b/c/", ".hidden/x", "./.", "a/.", "/..", "x/y/../z", "..", "...", "a/.../b",
];

#[test]
fn components_match_std_path() {
    for p in SAMPLES {
        assert_eq!(comps(p), std_comps(p), "components of {:?}", p);
    }
}

#[test]
fn file_name_matches_std_path() {
    for p in SAMPLES {
        let ours = file_name_of(PathStyle::Unix, p);
        let theirs = std::path::Path::new(p).file_name().map(|s| s.to_string_lossy().into_owned());
        assert_eq!(ours, theirs, "file name of {:?}", p);
    }
}

#[test]
fn push_matches_std_path_join() {
    for p in SAMPLES {
        for q in ["x", "/abs", "y/z", ""] {
            let ours: String = push_path(PathStyle::Unix, &chars_of(p), &chars_of(q)).iter().collect();
            let theirs = std::path::Path::new(p).join(q).to_string_lossy().into_owned();
            assert_eq!(ours, theirs, "{:?} joined with {:?}", p, q);
        }
    }
}

#[test]
fn path_prefix_and_equality_match_std() {
    for a in SAMPLES {
        for b in SAMPLES {
            let pa = std::path::Path::new(a);
            let pb = std::path::Path::new(b);
            assert_eq!(starts_with_path(PathStyle::Unix, &chars_of(a), &chars_of(b)), pa.starts_with(pb), "{:?} starts with {:?}", a, b);
            assert_eq!(same_path_chars(PathStyle::Unix, &chars_of(a), &chars_of(b)), pa == pb, "{:?} == {:?}", a, b);
        }
    }
}

#[test]
fn trim_matches_std() {
    for s in ["", "  a  ", "\t\n x y \r\n", "\u{3000}z\u{85}", "\u{200b}k", "no"] {
        let ours: String = trimmed(&chars_of(s)).iter().collect();
        assert_eq!(ours, s.trim(), "trim of {:?}", s);
    }
}

#[test]
fn parent_matches_std_path_spelling() {
    for p in SAMPLES.iter().chain(["a//b/c", "/x/./y/z", "a/b//", "./a", ".//a", "/a", "a/b/./"].iter()) {
        let ours = parent(PathStyle::Unix, &chars_of(p)).map(|v| v.iter().collect::<String>());
        let theirs = std::path::Path::new(p).parent().map(|q| q.to_string_lossy().into_owned());
        assert_eq!(ours, theirs, "parent of {:?}", p);
    }
}

fn win_comps(p: &str) -> Vec<String> {
    path_components(PathStyle::Windows, &chars_of(p)).iter().map(|c| c.iter().collect()).collect()
}

fn win_parent(p: &str) -> Option<String> {
    parent(PathStyle::Windows, &chars_of(p)).map(|v| v.iter().collect())
}

#[test]
fn windows_paths_split_at_both_separators() {
    assert_eq!(win_comps("C:\\Users\\me/repo"), vec!["C:", "\\", "Users", "me", "repo"]);
    assert_eq!(win_comps("C:/a//b\\"), vec!["C:", "\\", "a", "b"]);
    assert_eq!(win_comps("C:a\\b"), vec!["C:", "a", "b"]);
    assert_eq!(win_comps("C:.\\a"), vec!["C:", ".", "a"]);
    assert_eq!(win_comps("\\x\\..\\y"), vec!["\\", "x", "..", "y"]);
    assert_eq!(win_comps("a\\b"), vec!["a", "b"]);
    // on Unix a backslash is part of the name
    assert_eq!(comps("a\\b"), vec!["a\\b"]);
}

#[test]
fn windows_parent_and_file_name() {
    assert_eq!(win_parent("C:\\Users\\me\\repo"), Some("C:\\Users\\me".to_string()));
    assert_eq!(win_parent("C:/Users/me/repo/"), Some("C:/Users/me".to_string()));
    assert_eq!(win_parent("C:\\repo"), Some("C:\\".to_string()));
    assert_eq!(win_parent("C:\\"), None);
    assert_eq!(win_parent("C:"), None);
    assert_eq!(win_parent("C:a"), Some("C:".to_string()));
    assert_eq!(win_parent("C:."), Some("C:".to_string()));
    assert_eq!(file_name_of(PathStyle::Windows, "C:\\x\\repo"), Some("repo".to_string()));
    assert_eq!(file_name_of(PathStyle::Windows, "C:\\"), None);
    assert_eq!(file_name_of(PathStyle::Unix, "C:\\x\\repo"), Some("C:\\x\\repo".to_string()));
}

#[test]
fn windows_push_and_comparison() {
    let push = |p: &str, q: &str| -> String { push_path(PathStyle::Windows, &chars_of(p), &chars_of(q)).iter().collect() };
    assert_eq!(push("C:\\a", "b"), "C:\\a\\b");
    assert_eq!(push("C:/a/", "b"), "C:/a/b");
    assert_eq!(push("C:", "b"), "C:b");
    assert_eq!(push("C:\\a", "D:\\x"), "D:\\x");
    assert_eq!(push("C:\\a", "\\x"), "C:\\x");
    assert_eq!(push("", "b"), "b");
    let w = PathStyle::Windows;
    assert!(is_absolute_path(w, &chars_of("C:\\a")));
    assert!(!is_absolute_path(w, &chars_of("\\a")));
    assert!(!is_absolute_path(w, &chars_of("C:a")));
    assert!(is_absolute_path(PathStyle::Unix, &chars_of("/a")));
    assert!(same_path_chars(w, &chars_of("c:\\Work\\x"), &chars_of("C:/Work/x/")));
    assert!(!same_path_chars(w, &chars_of("C:\\work"), &chars_of("C:\\Work")));
    assert!(starts_with_path(w, &chars_of("C:\\w\\a\\src"), &chars_of("c:/w/a")));
    assert!(!starts_with_path(w, &chars_of("C:\\w\\ab"), &chars_of("C:\\w\\a")));
}

#[test]
fn listed_lines_match_std_lines_and_trim() {
    for s in ["a\nb", "a\r\nb\r\n", "\n\n x \n", "a\rb\n", "", "last\r", " \u{a0}y\u{a0} \n"] {
        let ours: Vec<String> = untracked_file_copies(PathStyle::Unix, s, "", "").iter().map(|c| c.source.clone()).collect();
        let theirs: Vec<String> = s.lines().map(|l| l.trim().to_string()).filter(|l| !l.is_empty()).collect();
        assert_eq!(ours, theirs, "lines of {:?}", s);
    }
}

#[test]
fn windows_unc_shares() {
    let w = PathStyle::Windows;
    assert_eq!(win_comps("\\\\srv\\share\\repo"), vec!["\\\\srv\\share", "\\", "repo"]);
    assert_eq!(win_comps("//srv/share"), vec!["//srv/share", "\\"]);
    assert_eq!(win_comps("\\\\srv"), vec!["\\", "srv"]);
    assert_eq!(win_comps("\\\\srv\\\\x"), vec!["\\", "srv", "x"]);
    assert_eq!(win_parent("\\\\srv\\share\\repo"), Some("\\\\srv\\share\\".to_string()));
    assert_eq!(win_parent("//srv/share"), None);
    assert_eq!(file_name_of(w, "//srv/share/Copse"), Some("Copse".to_string()));
    assert_eq!(file_name_of(w, "//srv/share"), None);
    assert!(is_absolute_path(w, &chars_of("//srv/share")));
    assert!(same_path_chars(w, &chars_of("\\\\srv\\share\\x"), &chars_of("//srv/share/x")));
    assert!(!same_path_chars(w, &chars_of("\\\\SRV\\share"), &chars_of("\\\\srv\\share")));
    assert!(starts_with_path(w, &chars_of("//srv/share/a/b"), &chars_of("\\\\srv\\share\\a")));
    let push = |p: &str, q: &str| -> String { push_path(w, &chars_of(p), &chars_of(q)).iter().collect() };
    assert_eq!(push("\\\\srv\\share", "x"), "\\\\srv\\share\\x");
    assert_eq!(push("\\\\srv\\share\\a", "\\b"), "\\\\srv\\share\\b");
    assert_eq!(push("C:\\a", "\\\\srv\\share"), "\\\\srv\\share");
    // on Unix the same text is an ordinary rooted path
    assert_eq!(comps("//srv/share"), vec!["/", "srv", "share"]);
}
