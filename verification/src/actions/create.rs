//! Creating a worktree: where it goes and under which branch name.
//!
//! A new worktree is placed at `<parent of the main worktree>/worktree/
//! <repository name>/<branch name>`, the branch name made safe for a
//! directory name.
use vstd::prelude::*;

use crate::git::{GitRef, GitRefType};
use crate::path::{
    bare_double_sep, body, components, head, is_absolute, is_piece, keeps_piece,
    lemma_absolute_components, lemma_prefix_text, lemma_push_all_concat, lemma_push_all_pieces,
    lemma_push_piece, parent, parent_dir_text, path_components, prefix_len, push, push_all,
    push_all_path, push_path, root_text, same_comp, same_comps, same_component, spec_file_name,
    spec_parent, spec_strip_unc_prefix, strip_unc_prefix_chars, view_all, PathStyle,
};
use crate::text::{chars_of, find_char, index_of_char, string_from_chars, sub_chars, trim, trim_bounds};

verus! {

/// A character that some file system does not allow in a directory name.
pub open spec fn is_unsafe_dir_char(c: char) -> bool {
    c == '/' || c == '\\' || c == ':' || c == '*' || c == '?' || c == '"' || c == '<' || c == '>'
        || c == '|'
}

/// `name` with each unsafe character replaced by `_`.
pub open spec fn spec_sanitize(name: Seq<char>) -> Seq<char> {
    Seq::new(name.len(), |i: int| if is_unsafe_dir_char(name[i]) { '_' } else { name[i] })
}

/// A branch name made usable as a directory name: each of
/// `/ \ : * ? " < > |` becomes `_`.
pub fn sanitize_branch_name(name: &str) -> (r: String)
    ensures
        r@ == spec_sanitize(name@),
{
    let s = chars_of(name);
    let mut out: Vec<char> = Vec::new();
    let mut i: usize = 0;
    while i < s.len()
        invariant
            i <= s.len(),
            out@ =~= spec_sanitize(s@).subrange(0, i as int),
        decreases s.len() - i,
    {
        let c = s[i];
        let d = if c == '/' || c == '\\' || c == ':' || c == '*' || c == '?' || c == '"' || c
            == '<' || c == '>' || c == '|' {
            '_'
        } else {
            c
        };
        out.push(d);
        i = i + 1;
    }
    assert(spec_sanitize(s@).subrange(0, s.len() as int) =~= spec_sanitize(s@));
    string_from_chars(&out)
}

/// Sanitizing replaces exactly the characters `/ \ : * ? " < > |`, each by
/// `_`, and keeps every other character, in its place: two names that
/// differ in a safe character stay apart.
pub proof fn lemma_sanitize_replaces_only_unsafe(name: Seq<char>)
    ensures
        spec_sanitize(name).len() == name.len(),
        forall|i: int|
            0 <= i < name.len() ==> (#[trigger] spec_sanitize(name)[i] == (if name[i] == '/'
                || name[i] == '\\' || name[i] == ':' || name[i] == '*' || name[i] == '?' || name[i]
                == '"' || name[i] == '<' || name[i] == '>' || name[i] == '|' {
                '_'
            } else {
                name[i]
            })),
{
}

/// A sanitized name has no unsafe character, keeps its length, and
/// sanitizing it again changes nothing.
pub proof fn lemma_sanitize_is_safe_and_idempotent(name: Seq<char>)
    ensures
        spec_sanitize(name).len() == name.len(),
        forall|i: int|
            0 <= i < name.len() ==> !is_unsafe_dir_char(#[trigger] spec_sanitize(name)[i]),
        spec_sanitize(spec_sanitize(name)) =~= spec_sanitize(name),
{
}

/// The directory that holds the `worktree` folder: the parent of the
/// repository root, or `/` if it has none.
pub open spec fn spec_worktree_parent_dir(st: PathStyle, repo_root: Seq<char>) -> Seq<char> {
    match spec_parent(st, repo_root) {
        Some(p) => p,
        None => seq!['/'],
    }
}

/// The parent of the repository root, or `/` if it has none.
pub fn worktree_parent_dir(st: PathStyle, repo_root: &str) -> (r: String)
    ensures
        r@ == spec_worktree_parent_dir(st, repo_root@),
{
    let root = chars_of(repo_root);
    match parent(st, &root) {
        Some(p) => string_from_chars(&p),
        None => {
            let mut v: Vec<char> = Vec::new();
            v.push('/');
            assert(v@ =~= seq!['/']);
            string_from_chars(&v)
        },
    }
}

/// Where the worktree for `branch_name` goes: `<parent>/worktree/
/// <repo_name>/<sanitized branch_name>`, where `<parent>` is the parent of
/// `repo_root` as the file system resolves it (`resolved_parent`, without a
/// `\\?\` prefix), or as written when it could not be resolved.
pub open spec fn spec_worktree_path(
    st: PathStyle,
    repo_root: Seq<char>,
    repo_name: Seq<char>,
    branch_name: Seq<char>,
    resolved_parent: Option<Seq<char>>,
) -> Seq<char> {
    let parent_dir = match resolved_parent {
        Some(p) => spec_strip_unc_prefix(p),
        None => spec_worktree_parent_dir(st, repo_root),
    };
    push(st, push(st, push(st, parent_dir, "worktree"@), repo_name), spec_sanitize(branch_name))
}

/// The path of the worktree for `branch_name` (see `spec_worktree_path`).
pub fn build_worktree_path(
    st: PathStyle,
    repo_root: &str,
    repo_name: &str,
    branch_name: &str,
    resolved_parent: Option<&str>,
) -> (r: String)
    ensures
        r@ == spec_worktree_path(
            st,
            repo_root@,
            repo_name@,
            branch_name@,
            match resolved_parent {
                Some(p) => Some(p@),
                None => None,
            },
        ),
{
    let parent_dir = match resolved_parent {
        Some(p) => {
            let pc = chars_of(p);
            strip_unc_prefix_chars(&pc)
        },
        None => {
            let d = worktree_parent_dir(st, repo_root);
            chars_of(d.as_str())
        },
    };
    let folder = chars_of("worktree");
    let name = chars_of(repo_name);
    let safe = sanitize_branch_name(branch_name);
    let safe_chars = chars_of(safe.as_str());
    let p1 = push_path(st, &parent_dir, &folder);
    let p2 = push_path(st, &p1, &name);
    let p3 = push_path(st, &p2, &safe_chars);
    string_from_chars(&p3)
}

/// The number of leading components of `a` and `b`, from position `i` on,
/// that are equal.
pub open spec fn common_len_from(
    st: PathStyle,
    a: Seq<Seq<char>>,
    b: Seq<Seq<char>>,
    i: int,
) -> int
    decreases a.len() - i,
{
    if 0 <= i < a.len() && i < b.len() && same_comp(st, i, a[i], b[i]) {
        common_len_from(st, a, b, i + 1)
    } else {
        i
    }
}

/// The number of leading components that `a` and `b` share.
pub open spec fn common_prefix_len(st: PathStyle, a: Seq<Seq<char>>, b: Seq<Seq<char>>) -> int {
    common_len_from(st, a, b, 0)
}

proof fn lemma_common_len_from(st: PathStyle, a: Seq<Seq<char>>, b: Seq<Seq<char>>, i: int)
    requires
        0 <= i <= a.len(),
        i <= b.len(),
    ensures
        i <= common_len_from(st, a, b, i) <= a.len(),
        common_len_from(st, a, b, i) <= b.len(),
        forall|j: int|
            i <= j < common_len_from(st, a, b, i) ==> #[trigger] same_comp(st, j, a[j], b[j]),
        common_len_from(st, a, b, i) < a.len() && common_len_from(st, a, b, i) < b.len()
            ==> !same_comp(
            st,
            common_len_from(st, a, b, i),
            a[common_len_from(st, a, b, i)],
            b[common_len_from(st, a, b, i)],
        ),
    decreases a.len() - i,
{
    if i < a.len() && i < b.len() && same_comp(st, i, a[i], b[i]) {
        lemma_common_len_from(st, a, b, i + 1);
    }
}

/// The base a relative path is taken from: `base` as the file system
/// resolves it (`resolved`) if it could, without a `\\?\` prefix.
pub open spec fn effective_base(base: Seq<char>, resolved: Option<Seq<char>>) -> Seq<char> {
    spec_strip_unc_prefix(
        match resolved {
            Some(r) => r,
            None => base,
        },
    )
}

/// No component of `p` is `..`.
pub open spec fn no_parent_dir(st: PathStyle, p: Seq<char>) -> bool {
    forall|i: int|
        0 <= i < components(st, p).len() ==> !(#[trigger] components(st, p)[i] =~= parent_dir_text())
}

/// No component after the prefix and root of `p` reads as a drive prefix.
pub open spec fn no_drive_names(st: PathStyle, p: Seq<char>) -> bool {
    forall|i: int| 0 <= i < body(st, p).len() ==> prefix_len(st, #[trigger] body(st, p)[i]) == 0
}

/// The path that leads from `base` to `target`: a `..` for each component
/// of `base` past the ones they share, then the rest of `target`'s
/// components (`.` if that is nothing). `base` is taken as the file system
/// resolves it (`resolved_base`) if it could, without a `\\?\` prefix, and a
/// `target` that is not absolute is taken from `base`.
pub open spec fn spec_relative_path(
    st: PathStyle,
    base: Seq<char>,
    target: Seq<char>,
    resolved_base: Option<Seq<char>>,
) -> Seq<char> {
    let b = effective_base(base, resolved_base);
    let t = if is_absolute(st, target) {
        target
    } else {
        push(st, b, target)
    };
    let bc = components(st, b);
    let tc = components(st, t);
    let k = common_prefix_len(st, bc, tc);
    let ups = Seq::new((bc.len() - k) as nat, |i: int| parent_dir_text());
    let r = push_all(st, Seq::empty(), ups + tc.subrange(k, tc.len() as int));
    if r.len() == 0 {
        seq!['.']
    } else {
        r
    }
}

/// The path from `base` to `target` (see `spec_relative_path`).
pub fn pathdiff_relative(
    st: PathStyle,
    base: &str,
    target: &str,
    resolved_base: Option<&str>,
) -> (r: String)
    ensures
        r@ == spec_relative_path(
            st,
            base@,
            target@,
            match resolved_base {
                Some(p) => Some(p@),
                None => None,
            },
        ),
{
    let raw = match resolved_base {
        Some(p) => chars_of(p),
        None => chars_of(base),
    };
    let b = strip_unc_prefix_chars(&raw);
    let tgt = chars_of(target);
    let t = if crate::path::is_absolute_path(st, &tgt) {
        tgt
    } else {
        push_path(st, &b, &tgt)
    };
    let bc = path_components(st, &b);
    let tc = path_components(st, &t);
    let ghost bv = view_all(bc@);
    let ghost tv = view_all(tc@);
    let mut k: usize = 0;
    while k < bc.len() && k < tc.len() && same_component(st, k, &bc[k], &tc[k])
        invariant
            k <= bc.len(),
            k <= tc.len(),
            bv == view_all(bc@),
            tv == view_all(tc@),
            common_len_from(st, bv, tv, k as int) == common_prefix_len(st, bv, tv),
        decreases bc.len() - k,
    {
        assert(bv[k as int] == bc@[k as int]@ && tv[k as int] == tc@[k as int]@);
        k = k + 1;
    }
    if k < bc.len() && k < tc.len() {
        assert(bv[k as int] == bc@[k as int]@ && tv[k as int] == tc@[k as int]@);
    }
    assert(common_len_from(st, bv, tv, k as int) == k);
    let mut pieces: Vec<Vec<char>> = Vec::new();
    let mut i = k;
    while i < bc.len()
        invariant
            k <= i <= bc.len(),
            view_all(pieces@) =~= Seq::new((i - k) as nat, |j: int| parent_dir_text()),
        decreases bc.len() - i,
    {
        let mut up: Vec<char> = Vec::new();
        up.push('.');
        up.push('.');
        assert(up@ =~= parent_dir_text());
        let ghost before = view_all(pieces@);
        pieces.push(up);
        assert(view_all(pieces@) =~= before.push(parent_dir_text()));
        i = i + 1;
    }
    let ghost ups = view_all(pieces@);
    let mut j = k;
    while j < tc.len()
        invariant
            k <= j <= tc.len(),
            view_all(pieces@) =~= ups + view_all(tc@).subrange(k as int, j as int),
        decreases tc.len() - j,
    {
        let c = sub_chars(&tc[j], 0, tc[j].len());
        assert(tc[j as int]@.subrange(0, tc[j as int].len() as int) =~= tc[j as int]@);
        let ghost before = view_all(pieces@);
        pieces.push(c);
        assert(view_all(pieces@) =~= before.push(view_all(tc@)[j as int]));
        j = j + 1;
    }
    let empty: Vec<char> = Vec::new();
    let r = push_all_path(st, &empty, &pieces, 0);
    assert(view_all(pieces@).subrange(0, pieces.len() as int) =~= view_all(pieces@));
    if r.len() == 0 {
        let mut dot: Vec<char> = Vec::new();
        dot.push('.');
        assert(dot@ =~= seq!['.']);
        string_from_chars(&dot)
    } else {
        string_from_chars(&r)
    }
}

/// For a remote branch, its name without the remote (what follows the
/// first `/`, nothing if there is no `/`).
pub open spec fn spec_remote_branch_folder(name: Seq<char>) -> Seq<char> {
    let i = index_of_char(name, '/');
    if i < name.len() {
        name.subrange(i + 1, name.len() as int)
    } else {
        Seq::empty()
    }
}

/// The branch name a worktree made directly from a reference is filed
/// under: the name of a remote branch without its remote, else the name.
pub open spec fn spec_folder_name(t: GitRefType, name: Seq<char>) -> Seq<char> {
    if t == GitRefType::RemoteBranch {
        spec_remote_branch_folder(name)
    } else {
        name
    }
}

/// A worktree made directly from a remote branch `<remote>/<rest>` is
/// filed under `<rest>`, everything after the remote's name; one made from
/// any other reference under its name as it is.
pub proof fn lemma_folder_name_drops_remote(t: GitRefType, remote: Seq<char>, rest: Seq<char>)
    requires
        index_of_char(remote, '/') == remote.len(),
    ensures
        spec_folder_name(GitRefType::RemoteBranch, remote + seq!['/'] + rest) =~= rest,
        t != GitRefType::RemoteBranch ==> spec_folder_name(t, remote + seq!['/'] + rest)
            =~= remote + seq!['/'] + rest,
{
    let name = remote + seq!['/'] + rest;
    assert(name =~= remote + (seq!['/'] + rest));
    crate::text::lemma_index_of_char_concat(remote, seq!['/'] + rest, '/');
    crate::text::lemma_index_of_char_at(seq!['/'] + rest, '/', 0);
    assert(name.subrange(remote.len() + 1 as int, name.len() as int) =~= rest);
}

/// The branch name a worktree made directly from `selected` is filed under
/// (`origin/feature-1` gives `feature-1`).
pub fn worktree_folder_name(selected: &GitRef) -> (r: String)
    ensures
        r@ == spec_folder_name(selected.ref_type, selected.name@),
{
    let name = chars_of(selected.name.as_str());
    if selected.ref_type == GitRefType::RemoteBranch {
        let i = find_char(&name, 0, '/');
        assert(name@.subrange(0, name.len() as int) =~= name@);
        if i < name.len() {
            let rest = sub_chars(&name, i + 1, name.len());
            string_from_chars(&rest)
        } else {
            let empty: Vec<char> = Vec::new();
            assert(empty@ =~= Seq::<char>::empty());
            string_from_chars(&empty)
        }
    } else {
        string_from_chars(&name)
    }
}

/// How the worktree is made: with a new branch from the selected
/// reference, or directly from it.
#[derive(Debug, Clone, Copy, PartialEq, Eq, Structural)]
pub enum CreateMode {
    NewBranch,
    FromRef,
}

impl CreateMode {
    /// The mode of the option picked from the menu (the first option makes
    /// a new branch).
    pub fn from_choice(choice: usize) -> (r: CreateMode)
        ensures
            r == (if choice == 0 {
                CreateMode::NewBranch
            } else {
                CreateMode::FromRef
            }),
    {
        if choice == 0 {
            CreateMode::NewBranch
        } else {
            CreateMode::FromRef
        }
    }
}

/// Why a worktree cannot be made.
#[derive(Debug, Clone, Copy, PartialEq, Eq, Structural)]
pub enum CreateError {
    /// The new branch name is empty or only whitespace.
    EmptyBranchName,
}

impl CreateError {
    pub fn message(&self) -> (r: &'static str)
        ensures
            r@ == "Branch name cannot be empty"@,
    {
        "Branch name cannot be empty"
    }
}

/// The branch name the worktree is filed under, and the branch to create,
/// if any: for a new branch, the name typed in (refused if it is only
/// whitespace), for both; directly from a reference, its folder name and no
/// new branch.
pub fn worktree_branch_names(selected: &GitRef, mode: CreateMode, new_name: &str) -> (r: Result<
    (String, Option<String>),
    CreateError,
>)
    ensures
        mode == CreateMode::NewBranch && trim(new_name@).len() == 0 ==> r matches Err(
            CreateError::EmptyBranchName,
        ),
        mode == CreateMode::NewBranch && trim(new_name@).len() > 0 ==> (r matches Ok(
            (folder, Some(branch)),
        ) && folder@ == new_name@ && branch@ == new_name@),
        mode == CreateMode::FromRef ==> (r matches Ok((folder, None)) && folder@ == spec_folder_name(
            selected.ref_type,
            selected.name@,
        )),
{
    match mode {
        CreateMode::NewBranch => {
            let s = chars_of(new_name);
            let (a, b) = trim_bounds(&s, 0, s.len());
            assert(s@.subrange(0, s.len() as int) =~= s@);
            if a == b {
                Err(CreateError::EmptyBranchName)
            } else {
                Ok((new_name.to_owned(), Some(new_name.to_owned())))
            }
        },
        CreateMode::FromRef => Ok((worktree_folder_name(selected), None)),
    }
}

/// The path shown for the new worktree: as it is if absolute paths are
/// asked for, else relative to the root of the current worktree.
pub fn worktree_display_path(
    st: PathStyle,
    absolute_path: bool,
    worktree_path: &str,
    current_root: &str,
    resolved_current_root: Option<&str>,
) -> (r: String)
    ensures
        absolute_path ==> r@ == worktree_path@,
        !absolute_path ==> r@ == spec_relative_path(
            st,
            current_root@,
            worktree_path@,
            match resolved_current_root {
                Some(p) => Some(p@),
                None => None,
            },
        ),
{
    if absolute_path {
        worktree_path.to_owned()
    } else {
        pathdiff_relative(st, current_root, worktree_path, resolved_current_root)
    }
}

proof fn lemma_sanitized_piece(st: PathStyle, name: Seq<char>)
    requires
        keeps_piece(name),
    ensures
        is_piece(st, spec_sanitize(name)),
{
    let s = spec_sanitize(name);
    crate::path::lemma_sep_index_at(st, s, s.len() as int);
    if s =~= seq!['.'] {
        assert(s[0] == '.');
        assert(name =~= seq!['.']);
    }
    if s.len() >= 2 {
        assert(s[1] != ':');
    }
}

/// Where a new worktree goes: the components of its path are those of the
/// parent directory, then `worktree`, the repository name and the
/// sanitized branch name, and its file name is the sanitized branch name
/// (for a repository name that is a single component, a branch name that
/// is neither empty nor `.`, and a parent directory that is not two
/// separators and a server name, which `worktree` would complete into a
/// UNC prefix; a sanitized branch name has no separator and no `:`).
pub proof fn lemma_worktree_path_layout(
    st: PathStyle,
    repo_root: Seq<char>,
    repo_name: Seq<char>,
    branch_name: Seq<char>,
    resolved_parent: Option<Seq<char>>,
)
    requires
        is_piece(st, repo_name),
        keeps_piece(branch_name),
        !bare_double_sep(
            st,
            match resolved_parent {
                Some(p) => spec_strip_unc_prefix(p),
                None => spec_worktree_parent_dir(st, repo_root),
            },
        ),
    ensures
        components(st, spec_worktree_path(st, repo_root, repo_name, branch_name, resolved_parent))
            =~= components(
            st,
            match resolved_parent {
                Some(p) => spec_strip_unc_prefix(p),
                None => spec_worktree_parent_dir(st, repo_root),
            },
        ) + seq!["worktree"@, repo_name, spec_sanitize(branch_name)],
        !(spec_sanitize(branch_name) =~= parent_dir_text()) ==> spec_file_name(
            st,
            spec_worktree_path(st, repo_root, repo_name, branch_name, resolved_parent),
        ) == Some(spec_sanitize(branch_name)),
{
    let parent_dir = match resolved_parent {
        Some(p) => spec_strip_unc_prefix(p),
        None => spec_worktree_parent_dir(st, repo_root),
    };
    reveal_strlit("worktree");
    let w = "worktree"@;
    crate::path::lemma_sep_index_at(st, w, w.len() as int);
    assert(is_piece(st, w));
    lemma_sanitized_piece(st, branch_name);
    let p1 = push(st, parent_dir, w);
    let p2 = push(st, p1, repo_name);
    lemma_push_piece(st, parent_dir, w);
    lemma_push_piece(st, p1, repo_name);
    lemma_push_piece(st, p2, spec_sanitize(branch_name));
    assert(components(st, parent_dir).push(w).push(repo_name).push(spec_sanitize(branch_name))
        =~= components(st, parent_dir) + seq![w, repo_name, spec_sanitize(branch_name)]);
}

/// Where a path relative to `base` leads, resolving `..` by dropping the
/// last component and skipping `.`.
pub open spec fn resolve(base: Seq<Seq<char>>, rel: Seq<Seq<char>>) -> Seq<Seq<char>>
    decreases rel.len(),
{
    if rel.len() == 0 {
        base
    } else if rel[0] =~= parent_dir_text() {
        resolve(
            if base.len() > 0 {
                base.drop_last()
            } else {
                base
            },
            rel.drop_first(),
        )
    } else if rel[0] =~= seq!['.'] {
        resolve(base, rel.drop_first())
    } else {
        resolve(base.push(rel[0]), rel.drop_first())
    }
}

proof fn lemma_resolve_ups(x: Seq<Seq<char>>, m: int, y: Seq<Seq<char>>)
    requires
        0 <= m <= x.len(),
    ensures
        resolve(x, Seq::new(m as nat, |i: int| parent_dir_text()) + y) =~= resolve(
            x.subrange(0, x.len() - m),
            y,
        ),
    decreases m,
{
    let ups = Seq::new(m as nat, |i: int| parent_dir_text());
    if m == 0 {
        assert(ups + y =~= y);
        assert(x.subrange(0, x.len() as int) =~= x);
    } else {
        let rel = ups + y;
        assert(rel[0] =~= parent_dir_text());
        let ups2 = Seq::new((m - 1) as nat, |i: int| parent_dir_text());
        assert(rel.drop_first() =~= ups2 + y);
        lemma_resolve_ups(x.drop_last(), m - 1, y);
        assert(x.drop_last().subrange(0, x.drop_last().len() - (m - 1)) =~= x.subrange(
            0,
            x.len() - m,
        ));
    }
}

proof fn lemma_resolve_pieces(x: Seq<Seq<char>>, y: Seq<Seq<char>>)
    requires
        forall|i: int|
            0 <= i < y.len() ==> keeps_piece(#[trigger] y[i]) && !(y[i] =~= parent_dir_text()),
    ensures
        resolve(x, y) =~= x + y,
    decreases y.len(),
{
    if y.len() > 0 {
        assert(keeps_piece(y[0]));
        assert(!(y[0] =~= seq!['.']));
        lemma_resolve_pieces(x.push(y[0]), y.drop_first());
        assert(x.push(y[0]) + y.drop_first() =~= x + y);
    }
}

/// The relative path leads to a target that starts as the base does.
proof fn lemma_relative_path_same_start(
    st: PathStyle,
    base: Seq<char>,
    target: Seq<char>,
    resolved_base: Option<Seq<char>>,
)
    requires
        is_absolute(st, effective_base(base, resolved_base)),
        is_absolute(st, target),
        same_comp(
            st,
            0,
            components(st, effective_base(base, resolved_base))[0],
            components(st, target)[0],
        ),
        no_parent_dir(st, effective_base(base, resolved_base)),
        no_parent_dir(st, target),
        no_drive_names(st, target),
    ensures
        ({
            let reached = resolve(
                components(st, effective_base(base, resolved_base)),
                components(st, spec_relative_path(st, base, target, resolved_base)),
            );
            reached.len() == components(st, target).len() && same_comps(
                st,
                reached,
                components(st, target),
                reached.len() as int,
            )
        }),
{
    let b = effective_base(base, resolved_base);
    let bc = components(st, b);
    let tc = components(st, target);
    lemma_absolute_components(st, b);
    lemma_absolute_components(st, target);
    let h: int = if st == PathStyle::Windows {
        2
    } else {
        1
    };
    assert(head(st, b).len() == h && head(st, target).len() == h);
    assert(bc.len() >= h && tc.len() >= h);
    assert forall|j: int| 0 <= j < h implies #[trigger] same_comp(st, j, bc[j], tc[j]) by {
        if j == 1 {
            assert(bc[1] == head(st, b)[1]);
            assert(tc[1] == head(st, target)[1]);
        }
    }
    lemma_common_len_from(st, bc, tc, 0);
    let k = common_prefix_len(st, bc, tc);
    if k < h {
        assert(same_comp(st, k, bc[k], tc[k]));
    }
    assert(k >= h);
    let m = bc.len() - k;
    let ups = Seq::new(m as nat, |i: int| parent_dir_text());
    let rest = tc.subrange(k, tc.len() as int);
    let cs = ups + rest;
    assert forall|i: int| 0 <= i < rest.len() implies is_piece(st, #[trigger] rest[i]) && !(
    rest[i] =~= parent_dir_text()) by {
        assert(rest[i] == tc[k + i]);
        assert(tc[k + i] == body(st, target)[k + i - h]);
        assert(!(tc[k + i] =~= parent_dir_text()));
    }
    assert forall|i: int| 0 <= i < cs.len() implies is_piece(st, #[trigger] cs[i]) by {
        if i < m {
            assert(cs[i] == parent_dir_text());
            crate::path::lemma_sep_index_at(st, parent_dir_text(), 2);
        } else {
            assert(cs[i] == rest[i - m]);
        }
    }
    lemma_push_all_pieces(st, Seq::empty(), cs);
    assert(components(st, Seq::<char>::empty()) =~= Seq::<Seq<char>>::empty()) by {
        assert(Seq::<char>::empty().subrange(0, 0) =~= Seq::<char>::empty());
    }
    let r = push_all(st, Seq::empty(), cs);
    assert(components(st, r) =~= cs);
    lemma_resolve_ups(bc, m as int, rest);
    lemma_resolve_pieces(bc.subrange(0, k as int), rest);
    let reached_cs = bc.subrange(0, k as int) + rest;
    assert(resolve(bc, cs) =~= reached_cs);
    assert forall|j: int| 0 <= j < reached_cs.len() implies #[trigger] same_comp(
        st,
        j,
        reached_cs[j],
        tc[j],
    ) by {
        if j < k {
            assert(reached_cs[j] == bc[j]);
        } else {
            assert(reached_cs[j] == tc[j]);
        }
    }
    if r.len() == 0 {
        reveal_with_fuel(resolve, 2);
        assert(cs.len() == 0);
        assert(m == 0);
        assert(seq![seq!['.']].drop_first() =~= Seq::<Seq<char>>::empty());
        crate::path::lemma_cur_dir_components(st);
        assert(resolve(bc, seq![seq!['.']]) =~= bc);
        assert(bc.subrange(0, k as int) =~= bc);
    }
}

/// The relative path to a target that starts otherwise than the base (on
/// another drive or share) is the target itself, spelled with the
/// separators that are written: absolute, with the target's components.
proof fn lemma_relative_path_other_start(
    st: PathStyle,
    base: Seq<char>,
    target: Seq<char>,
    resolved_base: Option<Seq<char>>,
)
    requires
        is_absolute(st, effective_base(base, resolved_base)),
        is_absolute(st, target),
        !same_comp(
            st,
            0,
            components(st, effective_base(base, resolved_base))[0],
            components(st, target)[0],
        ),
        no_drive_names(st, target),
    ensures
        is_absolute(st, spec_relative_path(st, base, target, resolved_base)),
        components(st, spec_relative_path(st, base, target, resolved_base)) =~= components(
            st,
            target,
        ),
{
    let b = effective_base(base, resolved_base);
    let bc = components(st, b);
    let tc = components(st, target);
    lemma_absolute_components(st, b);
    lemma_absolute_components(st, target);
    if st == PathStyle::Unix {
        assert(bc[0] == root_text(st) && tc[0] == root_text(st));
        assert(false);
    }
    assert(common_prefix_len(st, bc, tc) == 0);
    let ups = Seq::new(bc.len(), |i: int| parent_dir_text());
    assert(ups + tc.subrange(0, tc.len() as int) =~= ups + tc);
    let q = target.subrange(0, prefix_len(st, target));
    let rt = root_text(st);
    let bd = body(st, target);
    assert(tc =~= seq![q, rt] + bd);
    lemma_prefix_text(st, target);
    let p0 = push_all(st, Seq::empty(), ups);
    lemma_push_all_concat(st, Seq::empty(), ups, tc);
    lemma_push_all_concat(st, p0, seq![q, rt], bd);
    reveal_with_fuel(push_all, 3);
    assert(seq![q, rt].drop_first() =~= seq![rt]);
    assert(seq![rt].drop_first() =~= Seq::<Seq<char>>::empty());
    assert(push_all(st, p0, seq![q, rt]) == push(st, push(st, p0, q), rt));
    let r0 = q + rt;
    assert(push(st, p0, q) == q);
    assert(push_all(st, p0, seq![q, rt]) == r0);
    assert forall|i: int| 0 <= i < bd.len() implies is_piece(st, #[trigger] bd[i]) by {}
    lemma_push_all_pieces(st, r0, bd);
    let r = push_all(st, r0, bd);
    assert(components(st, r) =~= seq![q, rt] + bd);
    assert(r.len() > 0) by {
        if r.len() == 0 {
            assert(r =~= Seq::<char>::empty());
            assert(r.subrange(0, 0) =~= Seq::<char>::empty());
            assert(components(st, r).len() == 0);
        }
    }
}

/// The relative path shown leads to the target (for a base, as resolved,
/// and a target that are both absolute, and a target none of whose names
/// reads as a drive prefix):
/// - where the target starts as the base does (on Unix always; on Windows
///   on the same drive or share), and neither holds `..`, as resolved paths
///   do: starting from the components of the base and following those of
///   the relative path, with `..` going up one component, ends at the
///   components of the target;
/// - where it starts otherwise, the relative path is absolute and has the
///   target's components, so joining it to the base gives the target.
pub proof fn lemma_relative_path_leads_to_target(
    st: PathStyle,
    base: Seq<char>,
    target: Seq<char>,
    resolved_base: Option<Seq<char>>,
)
    requires
        is_absolute(st, effective_base(base, resolved_base)),
        is_absolute(st, target),
        no_drive_names(st, target),
    ensures
        same_comp(
            st,
            0,
            components(st, effective_base(base, resolved_base))[0],
            components(st, target)[0],
        ) && no_parent_dir(st, effective_base(base, resolved_base)) && no_parent_dir(st, target)
            ==> ({
            let reached = resolve(
                components(st, effective_base(base, resolved_base)),
                components(st, spec_relative_path(st, base, target, resolved_base)),
            );
            reached.len() == components(st, target).len() && same_comps(
                st,
                reached,
                components(st, target),
                reached.len() as int,
            )
        }),
        !same_comp(
            st,
            0,
            components(st, effective_base(base, resolved_base))[0],
            components(st, target)[0],
        ) ==> ({
            let rel = spec_relative_path(st, base, target, resolved_base);
            &&& is_absolute(st, rel)
            &&& components(st, rel) =~= components(st, target)
            &&& components(st, push(st, effective_base(base, resolved_base), rel))
                =~= components(st, target)
        }),
{
    let b = effective_base(base, resolved_base);
    if same_comp(st, 0, components(st, b)[0], components(st, target)[0]) {
        if no_parent_dir(st, b) && no_parent_dir(st, target) {
            lemma_relative_path_same_start(st, base, target, resolved_base);
        }
    } else {
        lemma_relative_path_other_start(st, base, target, resolved_base);
        let rel = spec_relative_path(st, base, target, resolved_base);
        assert(push(st, b, rel) == rel);
    }
}

} // verus!
