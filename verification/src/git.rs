//! What the tool reads from git and decides from it: the parsers of git's
//! output (branches, tags, worktrees, status, diffs), the argument lists of
//! the git commands it runs, and how a command's outcome becomes a result.
//!
//! Running git is left to the caller: each function here takes what a git
//! command printed, as a [`CommandOutput`].
use vstd::prelude::*;

use crate::path::{
    file_name, parent, push, push_path, spec_file_name, spec_parent, spec_strip_unc_prefix,
    strip_unc_prefix_chars, PathStyle,
};
use crate::text::{
    chars_eq, chars_less, chars_lt, chars_of, concat_chars, contains_chars, ends_with, find_char,
    has_infix, has_prefix, has_suffix, index_of_char, lemma_chars_lt_asymmetric, lemma_lines_push_newline,
    lemma_chars_lt_total, lemma_chars_lt_transitive, lines, next_line, starts_with,
    strip_prefix_chars, strip_prefix_or_keep, string_from_chars, sub_chars, trim, trim_bounds,
    trimmed,
};

verus! {

broadcast use vstd::seq_lib::group_to_multiset_ensures, vstd::seq_lib::to_multiset_insert;

/// What a finished git command left behind: whether it succeeded, and what
/// it wrote to standard output and standard error.
#[derive(Debug, Clone)]
pub struct CommandOutput {
    pub success: bool,
    pub stdout: String,
    pub stderr: String,
}

pub struct CommandOutputView {
    pub success: bool,
    pub stdout: Seq<char>,
    pub stderr: Seq<char>,
}

impl View for CommandOutput {
    type V = CommandOutputView;

    open spec fn view(&self) -> CommandOutputView {
        CommandOutputView { success: self.success, stdout: self.stdout@, stderr: self.stderr@ }
    }
}

/// The git operation that a failed command belonged to.
#[derive(Debug, Clone, Copy, PartialEq, Eq, Structural)]
pub enum GitAction {
    ListWorktrees,
    CreateWorktree,
    RemoveWorktree,
    DeleteBranch,
    CheckStatus,
    ApplyDiff,
    ApplyDiffThreeWay,
}

impl GitAction {
    pub open spec fn spec_description(self) -> Seq<char> {
        match self {
            GitAction::ListWorktrees => "Failed to list worktrees"@,
            GitAction::CreateWorktree => "Failed to create worktree"@,
            GitAction::RemoveWorktree => "Failed to remove worktree"@,
            GitAction::DeleteBranch => "Failed to delete branch"@,
            GitAction::CheckStatus => "Failed to check worktree status"@,
            GitAction::ApplyDiff => "Failed to apply diff"@,
            GitAction::ApplyDiffThreeWay => "Failed to apply diff (some conflicts may remain)"@,
        }
    }

    /// The words that open the message of a failure of this operation.
    pub fn description(&self) -> (r: &'static str)
        ensures
            r@ == self.spec_description(),
    {
        match self {
            GitAction::ListWorktrees => "Failed to list worktrees",
            GitAction::CreateWorktree => "Failed to create worktree",
            GitAction::RemoveWorktree => "Failed to remove worktree",
            GitAction::DeleteBranch => "Failed to delete branch",
            GitAction::CheckStatus => "Failed to check worktree status",
            GitAction::ApplyDiff => "Failed to apply diff",
            GitAction::ApplyDiffThreeWay => "Failed to apply diff (some conflicts may remain)",
        }
    }
}

/// Why a git operation did not give a result.
#[derive(Debug, Clone)]
pub enum GitError {
    /// `git rev-parse --show-toplevel` failed.
    NotInRepository,
    /// The repository root has no last path component to name it by.
    NoRepositoryName,
    /// No worktree of the list is the main one.
    NoMainWorktree,
    /// A git command failed; `stderr` is what it wrote to standard error.
    CommandFailed { action: GitAction, stderr: String },
}

pub open spec fn spec_error_message(e: GitError) -> Seq<char> {
    match e {
        GitError::NotInRepository => "Not inside a git repository"@,
        GitError::NoRepositoryName => "Could not determine repository name"@,
        GitError::NoMainWorktree => "Could not find main worktree"@,
        GitError::CommandFailed { action, stderr } => action.spec_description() + ": "@ + stderr@,
    }
}

impl GitError {
    /// The message that the error is reported with.
    pub fn message(&self) -> (r: String)
        ensures
            r@ == spec_error_message(*self),
    {
        match self {
            GitError::NotInRepository => "Not inside a git repository".to_owned(),
            GitError::NoRepositoryName => "Could not determine repository name".to_owned(),
            GitError::NoMainWorktree => "Could not find main worktree".to_owned(),
            GitError::CommandFailed { action, stderr } => {
                let a = chars_of(action.description());
                let b = chars_of(": ");
                let c = chars_of(stderr.as_str());
                let ab = concat_chars(&a, &b);
                let abc = concat_chars(&ab, &c);
                string_from_chars(&abc)
            },
        }
    }
}

/// `Ok(())` when the command succeeded, else the failure of `action` with
/// the command's standard error.
pub fn expect_success(output: &CommandOutput, action: GitAction) -> (r: Result<(), GitError>)
    ensures
        output.success ==> r is Ok,
        !output.success ==> (r matches Err(GitError::CommandFailed { action: a, stderr: e })
            && a == action && e@ == output.stderr@),
{
    if output.success {
        Ok(())
    } else {
        Err(GitError::CommandFailed { action, stderr: output.stderr.clone() })
    }
}

/// The top-level directory of the repository, from the output of
/// `git rev-parse --show-toplevel`: the output with surrounding whitespace
/// removed.
pub fn get_repo_root(output: &CommandOutput) -> (r: Result<String, GitError>)
    ensures
        output.success ==> (r matches Ok(p) && p@ == trim(output.stdout@)),
        !output.success ==> r matches Err(GitError::NotInRepository),
{
    if !output.success {
        return Err(GitError::NotInRepository);
    }
    let s = chars_of(output.stdout.as_str());
    let t = trimmed(&s);
    Ok(string_from_chars(&t))
}

/// The name of the repository: the last component of its top-level
/// directory (from the output of `git rev-parse --show-toplevel`).
pub fn get_repo_name(st: PathStyle, output: &CommandOutput) -> (r: Result<String, GitError>)
    ensures
        !output.success ==> r matches Err(GitError::NotInRepository),
        output.success ==> match spec_file_name(st, trim(output.stdout@)) {
            Some(n) => r matches Ok(name) && name@ == n,
            None => r matches Err(GitError::NoRepositoryName),
        },
{
    let root = get_repo_root(output)?;
    let root_chars = chars_of(root.as_str());
    match file_name(st, &root_chars) {
        Some(n) => Ok(string_from_chars(&n)),
        None => Err(GitError::NoRepositoryName),
    }
}

// ----------------------------------------------------------------------
// Branches and tags
// ----------------------------------------------------------------------

/// The kind of a branch or tag reference.
#[derive(Debug, Clone, Copy, PartialEq, Eq, Structural)]
pub enum GitRefType {
    LocalBranch,
    RemoteBranch,
    LocalTag,
    RemoteTag,
}

impl GitRefType {
    /// Position of this kind in the listing order:
    /// local branch, remote branch, local tag, remote tag.
    pub open spec fn spec_sort_order(self) -> u8 {
        match self {
            GitRefType::LocalBranch => 0,
            GitRefType::RemoteBranch => 1,
            GitRefType::LocalTag => 2,
            GitRefType::RemoteTag => 3,
        }
    }

    pub open spec fn spec_label(self) -> Seq<char> {
        match self {
            GitRefType::LocalBranch => "Local Branch"@,
            GitRefType::RemoteBranch => "Remote Branch"@,
            GitRefType::LocalTag => "Local Tag"@,
            GitRefType::RemoteTag => "Remote Tag"@,
        }
    }

    pub fn sort_order(&self) -> (r: u8)
        ensures
            r == self.spec_sort_order(),
    {
        match self {
            GitRefType::LocalBranch => 0,
            GitRefType::RemoteBranch => 1,
            GitRefType::LocalTag => 2,
            GitRefType::RemoteTag => 3,
        }
    }

    pub fn label(&self) -> (r: &'static str)
        ensures
            r@ == self.spec_label(),
    {
        match self {
            GitRefType::LocalBranch => "Local Branch",
            GitRefType::RemoteBranch => "Remote Branch",
            GitRefType::LocalTag => "Local Tag",
            GitRefType::RemoteTag => "Remote Tag",
        }
    }
}

/// A branch or tag: its name, the text it is shown with, and its kind.
#[derive(Debug, Clone)]
pub struct GitRef {
    pub name: String,
    pub display: String,
    pub ref_type: GitRefType,
}

/// The text a reference is shown with: its kind in brackets, then its name.
pub open spec fn ref_display(t: GitRefType, name: Seq<char>) -> Seq<char> {
    "["@ + t.spec_label() + "] "@ + name
}

/// Reference order: by kind, then by name.
pub open spec fn ref_lt(a: (GitRefType, Seq<char>), b: (GitRefType, Seq<char>)) -> bool {
    a.0.spec_sort_order() < b.0.spec_sort_order() || (a.0.spec_sort_order()
        == b.0.spec_sort_order() && chars_lt(a.1, b.1))
}

/// No reference of `s` comes after one that it precedes in `ref_lt` order.
pub open spec fn refs_sorted(s: Seq<(GitRefType, Seq<char>)>) -> bool {
    forall|i: int, j: int| 0 <= i < j < s.len() ==> !ref_lt(#[trigger] s[j], #[trigger] s[i])
}

/// The references named by the lines of a `git branch` or `git tag` listing:
/// each line with surrounding whitespace removed, empty ones skipped, and,
/// where `skip_head`, names that contain `HEAD` skipped.
pub open spec fn listed_refs(ls: Seq<Seq<char>>, t: GitRefType, skip_head: bool) -> Seq<
    (GitRefType, Seq<char>),
>
    decreases ls.len(),
{
    if ls.len() == 0 {
        Seq::empty()
    } else {
        let n = trim(ls[0]);
        let rest = listed_refs(ls.drop_first(), t, skip_head);
        if n.len() > 0 && !(skip_head && has_infix(n, "HEAD"@)) {
            seq![(t, n)] + rest
        } else {
            rest
        }
    }
}

/// The tag named by one line of `git ls-remote --tags`
/// (`<sha>\trefs/tags/<name>`): the second tab-separated field of the
/// trimmed line, without `refs/tags/`; none for an empty line, a line
/// without a tab, or a peeled tag (`^{}`).
pub open spec fn ls_remote_tag(line: Seq<char>) -> Option<Seq<char>> {
    let t = trim(line);
    let i = index_of_char(t, '\t');
    if t.len() == 0 || i >= t.len() {
        None
    } else {
        let rest = t.subrange(i + 1, t.len() as int);
        let field = rest.subrange(0, index_of_char(rest, '\t'));
        let name = strip_prefix_or_keep(field, "refs/tags/"@);
        if has_suffix(name, "^{}"@) {
            None
        } else {
            Some(name)
        }
    }
}

/// The remote tags named by the lines of `git ls-remote --tags`, leaving out
/// those that are also local tags.
pub open spec fn remote_tag_refs(ls: Seq<Seq<char>>, local_tags: Seq<Seq<char>>) -> Seq<
    (GitRefType, Seq<char>),
>
    decreases ls.len(),
{
    if ls.len() == 0 {
        Seq::empty()
    } else {
        let rest = remote_tag_refs(ls.drop_first(), local_tags);
        match ls_remote_tag(ls[0]) {
            Some(n) => if local_tags.contains(n) {
                rest
            } else {
                seq![(GitRefType::RemoteTag, n)] + rest
            },
            None => rest,
        }
    }
}

/// The references listed by a command's output (none if it failed).
pub open spec fn output_refs(o: CommandOutputView, t: GitRefType, skip_head: bool) -> Seq<
    (GitRefType, Seq<char>),
> {
    if o.success {
        listed_refs(lines(o.stdout), t, skip_head)
    } else {
        Seq::empty()
    }
}

/// All references, in the order they are found: local branches, remote
/// branches (without `HEAD` entries), local tags, then the remote tags that
/// are not local tags.
pub open spec fn found_refs(
    local_branches: CommandOutputView,
    remote_branches: CommandOutputView,
    tags: CommandOutputView,
    remote_tags: CommandOutputView,
) -> Seq<(GitRefType, Seq<char>)> {
    let a = output_refs(local_branches, GitRefType::LocalBranch, false);
    let b = output_refs(remote_branches, GitRefType::RemoteBranch, true);
    let c = output_refs(tags, GitRefType::LocalTag, false);
    let local_names = c.map_values(|e: (GitRefType, Seq<char>)| e.1);
    let d = if remote_tags.success {
        remote_tag_refs(lines(remote_tags.stdout), local_names)
    } else {
        Seq::empty()
    };
    a + b + c + d
}

/// The kind and name of each reference of `v`.
pub open spec fn ref_keys(v: Seq<GitRef>) -> Seq<(GitRefType, Seq<char>)> {
    Seq::new(v.len(), |i: int| (v[i].ref_type, v[i].name@))
}

spec fn entries_view(v: Seq<(GitRefType, Vec<char>)>) -> Seq<(GitRefType, Seq<char>)> {
    Seq::new(v.len(), |i: int| (v[i].0, v[i].1@))
}

proof fn lemma_ref_lt_asymmetric(a: (GitRefType, Seq<char>), b: (GitRefType, Seq<char>))
    ensures
        !(ref_lt(a, b) && ref_lt(b, a)),
{
    lemma_chars_lt_asymmetric(a.1, b.1);
}

proof fn lemma_ref_lt_transitive(
    a: (GitRefType, Seq<char>),
    b: (GitRefType, Seq<char>),
    c: (GitRefType, Seq<char>),
)
    requires
        ref_lt(a, b),
        ref_lt(b, c),
    ensures
        ref_lt(a, c),
{
    if a.0.spec_sort_order() == b.0.spec_sort_order() && b.0.spec_sort_order()
        == c.0.spec_sort_order() {
        lemma_chars_lt_transitive(a.1, b.1, c.1);
    }
}

/// Appends to `acc` the references listed by the lines of `s`.
fn collect_listed(
    s: &Vec<char>,
    t: GitRefType,
    skip_head: bool,
    acc: &mut Vec<(GitRefType, Vec<char>)>,
)
    ensures
        entries_view(final(acc)@) =~= entries_view(old(acc)@) + listed_refs(lines(s@), t, skip_head),
{
    let head = chars_of("HEAD");
    let n = s.len();
    let mut pos: usize = 0;
    let ghost start = entries_view(acc@);
    assert(s@.subrange(0, n as int) =~= s@);
    while pos < n
        invariant
            n == s.len(),
            pos <= n,
            head@ == "HEAD"@,
            start + listed_refs(lines(s@), t, skip_head) =~= entries_view(acc@) + listed_refs(
                lines(s@.subrange(pos as int, n as int)),
                t,
                skip_head,
            ),
        decreases n - pos,
    {
        let (a, b, next) = next_line(s, pos);
        let (ta, tb) = trim_bounds(s, a, b);
        let ghost ls = lines(s@.subrange(pos as int, n as int));
        assert(ls.drop_first() =~= lines(s@.subrange(next as int, n as int)));
        if ta < tb {
            let name = sub_chars(s, ta, tb);
            let keep = if skip_head {
                !contains_chars(&name, &head)
            } else {
                true
            };
            if keep {
                let ghost before = entries_view(acc@);
                acc.push((t, name));
                assert(entries_view(acc@) =~= before + seq![(t, name@)]);
            }
        }
        pos = next;
    }
    assert(s@.subrange(n as int, n as int) =~= Seq::<char>::empty());
}

/// Whether `name` is one of the names of `names[from..to]`.
fn has_name(names: &Vec<(GitRefType, Vec<char>)>, from: usize, to: usize, name: &Vec<char>) -> (r:
    bool)
    requires
        from <= to <= names.len(),
    ensures
        r == entries_view(names@).subrange(from as int, to as int).map_values(
            |e: (GitRefType, Seq<char>)| e.1,
        ).contains(name@),
{
    let ghost m = entries_view(names@).subrange(from as int, to as int).map_values(
        |e: (GitRefType, Seq<char>)| e.1,
    );
    let mut i = from;
    while i < to
        invariant
            from <= i <= to <= names.len(),
            m == entries_view(names@).subrange(from as int, to as int).map_values(
                |e: (GitRefType, Seq<char>)| e.1,
            ),
            forall|j: int| 0 <= j < i - from ==> m[j] != name@,
        decreases to - i,
    {
        if chars_eq(&names[i].1, name) {
            assert(m[i - from] == name@);
            return true;
        }
        i = i + 1;
    }
    false
}

/// Appends to `acc` the remote tags of the lines of `s` that are not among
/// the names of `acc[tags_from..]`.
fn collect_remote_tags(s: &Vec<char>, tags_from: usize, acc: &mut Vec<(GitRefType, Vec<char>)>)
    requires
        tags_from <= old(acc).len(),
    ensures
        entries_view(final(acc)@) =~= entries_view(old(acc)@) + remote_tag_refs(
            lines(s@),
            entries_view(old(acc)@).subrange(tags_from as int, old(acc).len() as int).map_values(
                |e: (GitRefType, Seq<char>)| e.1,
            ),
        ),
{
    let prefix = chars_of("refs/tags/");
    let peeled = chars_of("^{}");
    let n = s.len();
    let tags_to = acc.len();
    let ghost local_names = entries_view(acc@).subrange(tags_from as int, tags_to as int).map_values(
        |e: (GitRefType, Seq<char>)| e.1,
    );
    let ghost start = entries_view(acc@);
    let mut pos: usize = 0;
    assert(s@.subrange(0, n as int) =~= s@);
    while pos < n
        invariant
            n == s.len(),
            pos <= n,
            tags_from <= tags_to <= acc.len(),
            prefix@ == "refs/tags/"@,
            peeled@ == "^{}"@,
            entries_view(acc@).subrange(tags_from as int, tags_to as int) =~= start.subrange(
                tags_from as int,
                tags_to as int,
            ),
            local_names == start.subrange(tags_from as int, tags_to as int).map_values(
                |e: (GitRefType, Seq<char>)| e.1,
            ),
            start + remote_tag_refs(lines(s@), local_names) =~= entries_view(acc@)
                + remote_tag_refs(lines(s@.subrange(pos as int, n as int)), local_names),
        decreases n - pos,
    {
        let (a, b, next) = next_line(s, pos);
        let ghost ls = lines(s@.subrange(pos as int, n as int));
        assert(ls.drop_first() =~= lines(s@.subrange(next as int, n as int)));
        let ghost line = ls[0];
        assert(line =~= s@.subrange(a as int, b as int));
        let (ta, tb) = trim_bounds(s, a, b);
        if ta < tb {
            proof {
                let t = trim(line);
                assert(t =~= s@.subrange(ta as int, tb as int));
            }
            let t = sub_chars(s, ta, tb);
            let i = find_char(&t, 0, '\t');
            assert(t@.subrange(0, t.len() as int) =~= t@);
            if i < t.len() {
                let j = find_char(&t, i + 1, '\t');
                let field = sub_chars(&t, i + 1, j);
                proof {
                    let rest = t@.subrange(i + 1, t.len() as int);
                    assert(rest.subrange(0, j - (i + 1)) =~= field@);
                }
                let name = strip_prefix_chars(&field, &prefix);
                if !ends_with(&name, &peeled) {
                    let ghost before = entries_view(acc@);
                    let known = has_name(acc, tags_from, tags_to, &name);
                    if !known {
                        acc.push((GitRefType::RemoteTag, name));
                        assert(entries_view(acc@) =~= before + seq![
                            (GitRefType::RemoteTag, name@),
                        ]);
                    }
                }
            }
        }
        pos = next;
    }
    assert(s@.subrange(n as int, n as int) =~= Seq::<char>::empty());
}

fn copy_entry(e: &(GitRefType, Vec<char>)) -> (r: (GitRefType, Vec<char>))
    ensures
        r.0 == e.0,
        r.1@ == e.1@,
{
    assert(e.1@.subrange(0, e.1.len() as int) =~= e.1@);
    (e.0, sub_chars(&e.1, 0, e.1.len()))
}

fn ref_less(a: &(GitRefType, Vec<char>), b: &(GitRefType, Vec<char>)) -> (r: bool)
    ensures
        r == ref_lt((a.0, a.1@), (b.0, b.1@)),
{
    let oa = a.0.sort_order();
    let ob = b.0.sort_order();
    oa < ob || (oa == ob && chars_less(&a.1, &b.1))
}

/// `v` in `ref_lt` order.
fn sort_refs(v: &Vec<(GitRefType, Vec<char>)>) -> (r: Vec<(GitRefType, Vec<char>)>)
    ensures
        refs_sorted(entries_view(r@)),
        entries_view(r@).to_multiset() =~= entries_view(v@).to_multiset(),
{
    let mut r: Vec<(GitRefType, Vec<char>)> = Vec::new();
    let mut i: usize = 0;
    assert(entries_view(v@).subrange(0, 0) =~= Seq::<(GitRefType, Seq<char>)>::empty());
    assert(entries_view(r@) =~= Seq::<(GitRefType, Seq<char>)>::empty());
    while i < v.len()
        invariant
            i <= v.len(),
            refs_sorted(entries_view(r@)),
            entries_view(r@).to_multiset() =~= entries_view(v@).subrange(0, i as int).to_multiset(),
        decreases v.len() - i,
    {
        let x = copy_entry(&v[i]);
        let ghost xv = (x.0, x.1@);
        let mut p: usize = 0;
        while p < r.len() && !ref_less(&x, &r[p])
            invariant
                p <= r.len(),
                xv == (x.0, x.1@),
                forall|j: int| 0 <= j < p ==> !ref_lt(xv, #[trigger] entries_view(r@)[j]),
            decreases r.len() - p,
        {
            assert(entries_view(r@)[p as int] == (r@[p as int].0, r@[p as int].1@));
            p = p + 1;
        }
        let ghost e = entries_view(r@);
        r.insert(p, x);
        proof {
            let e2 = entries_view(r@);
            assert(e2 =~= e.insert(p as int, xv));
            assert forall|a: int, b: int| 0 <= a < b < e2.len() implies !ref_lt(
                #[trigger] e2[b],
                #[trigger] e2[a],
            ) by {
                if b < p {
                    assert(e2[a] == e[a] && e2[b] == e[b]);
                } else if b == p {
                    assert(e2[a] == e[a]);
                } else if a > p {
                    assert(e2[a] == e[a - 1] && e2[b] == e[b - 1]);
                } else if a == p {
                    // x precedes e[p] (or e is over), and e[p] does not follow e[b - 1]
                    assert(e2[b] == e[b - 1]);
                    lemma_ref_lt_asymmetric(e[p as int], xv);
                    if ref_lt(e[b - 1], xv) {
                        if b - 1 > p {
                            lemma_ref_lt_transitive(e[b - 1], xv, e[p as int]);
                        }
                    }
                } else {
                    assert(e2[a] == e[a]);
                    assert(e2[b] == e[b - 1]);
                }
            }
            assert(entries_view(v@).subrange(0, i + 1) =~= entries_view(v@).subrange(
                0,
                i as int,
            ).push(xv));
        }
        i = i + 1;
    }
    assert(entries_view(v@).subrange(0, v.len() as int) =~= entries_view(v@));
    r
}

/// All branches and tags, from the outputs of `git branch`,
/// `git branch -r`, `git tag --list` and `git ls-remote --tags`: ordered
/// local branches, remote branches, local tags, remote tags, and by name
/// within each kind. A failed command contributes nothing.
pub fn get_all_refs(
    local_branches: &CommandOutput,
    remote_branches: &CommandOutput,
    tags: &CommandOutput,
    remote_tags: &CommandOutput,
) -> (r: Vec<GitRef>)
    ensures
        refs_sorted(ref_keys(r@)),
        ref_keys(r@).to_multiset() =~= found_refs(
            local_branches@,
            remote_branches@,
            tags@,
            remote_tags@,
        ).to_multiset(),
        ref_keys(r@) == sorted_refs(
            found_refs(local_branches@, remote_branches@, tags@, remote_tags@),
        ),
        forall|i: int|
            0 <= i < r.len() ==> (#[trigger] r[i]).display@ == ref_display(
                r[i].ref_type,
                r[i].name@,
            ),
{
    let mut acc: Vec<(GitRefType, Vec<char>)> = Vec::new();
    let ghost a = output_refs(local_branches@, GitRefType::LocalBranch, false);
    let ghost b = output_refs(remote_branches@, GitRefType::RemoteBranch, true);
    let ghost c = output_refs(tags@, GitRefType::LocalTag, false);
    assert(entries_view(acc@) =~= Seq::<(GitRefType, Seq<char>)>::empty());
    if local_branches.success {
        let s = chars_of(local_branches.stdout.as_str());
        collect_listed(&s, GitRefType::LocalBranch, false, &mut acc);
    }
    assert(entries_view(acc@) =~= a);
    if remote_branches.success {
        let s = chars_of(remote_branches.stdout.as_str());
        collect_listed(&s, GitRefType::RemoteBranch, true, &mut acc);
    }
    assert(entries_view(acc@) =~= a + b);
    let tags_from = acc.len();
    if tags.success {
        let s = chars_of(tags.stdout.as_str());
        collect_listed(&s, GitRefType::LocalTag, false, &mut acc);
    }
    assert(entries_view(acc@) =~= a + b + c);
    let tags_to = acc.len();
    assert(entries_view(acc@).subrange(tags_from as int, tags_to as int) =~= c);
    if remote_tags.success {
        let s = chars_of(remote_tags.stdout.as_str());
        collect_remote_tags(&s, tags_from, &mut acc);
    }
    assert(entries_view(acc@) =~= found_refs(
        local_branches@,
        remote_branches@,
        tags@,
        remote_tags@,
    ));
    let sorted = sort_refs(&acc);
    let mut r: Vec<GitRef> = Vec::new();
    let open_bracket = chars_of("[");
    let close_bracket = chars_of("] ");
    let mut i: usize = 0;
    while i < sorted.len()
        invariant
            i <= sorted.len(),
            r.len() == i,
            open_bracket@ == "["@,
            close_bracket@ == "] "@,
            forall|j: int| 0 <= j < i ==> (#[trigger] ref_keys(r@)[j]) == entries_view(sorted@)[j],
            forall|j: int|
                0 <= j < i ==> (#[trigger] r@[j]).display@ == ref_display(
                    r@[j].ref_type,
                    r@[j].name@,
                ),
        decreases sorted.len() - i,
    {
        let t = sorted[i].0;
        let name = &sorted[i].1;
        let label = chars_of(t.label());
        let d1 = concat_chars(&open_bracket, &label);
        let d2 = concat_chars(&d1, &close_bracket);
        let d3 = concat_chars(&d2, name);
        let ghost old_r = r@;
        r.push(GitRef { name: string_from_chars(name), display: string_from_chars(&d3), ref_type: t });
        proof {
            assert forall|j: int| 0 <= j < i + 1 implies (#[trigger] ref_keys(r@)[j])
                == entries_view(sorted@)[j] by {
                if j < i {
                    assert(r@[j] == old_r[j]);
                    assert(ref_keys(old_r)[j] == entries_view(sorted@)[j]);
                }
            }
        }
        i = i + 1;
    }
    assert(ref_keys(r@) =~= entries_view(sorted@));
    proof {
        lemma_all_refs_one_listing(
            ref_keys(r@),
            ref_keys(r@),
            local_branches@,
            remote_branches@,
            tags@,
            remote_tags@,
        );
    }
    r
}

/// The references of `s` in listing order: the sequence that is sorted by
/// `ref_lt` and holds the same references as `s` (there is exactly one, see
/// `lemma_sorted_refs_unique`).
pub open spec fn sorted_refs(s: Seq<(GitRefType, Seq<char>)>) -> Seq<(GitRefType, Seq<char>)> {
    choose|x: Seq<(GitRefType, Seq<char>)>| refs_sorted(x) && x.to_multiset() =~= s.to_multiset()
}

/// Two sequences of references that are both sorted and hold the same
/// references are the same sequence.
pub proof fn lemma_sorted_refs_unique(
    x: Seq<(GitRefType, Seq<char>)>,
    y: Seq<(GitRefType, Seq<char>)>,
)
    requires
        refs_sorted(x),
        refs_sorted(y),
        x.to_multiset() =~= y.to_multiset(),
    ensures
        x =~= y,
    decreases x.len(),
{
    x.to_multiset_ensures();
    y.to_multiset_ensures();
    if x.len() > 0 {
        let a = x[0];
        let b = y[0];
        assert(x.contains(a));
        assert(y.to_multiset().count(a) > 0);
        assert(y.contains(b));
        assert(x.to_multiset().count(b) > 0);
        let j = choose|j: int| 0 <= j < y.len() && y[j] == a;
        let i = choose|i: int| 0 <= i < x.len() && x[i] == b;
        if a != b {
            lemma_ref_order_total(a, b);
            assert(!ref_lt(y[j], y[0]));
            assert(!ref_lt(x[i], x[0]));
            assert(false);
        }
        assert(x.remove(0) =~= x.drop_first());
        assert(y.remove(0) =~= y.drop_first());
        assert(x.drop_first().to_multiset() =~= y.drop_first().to_multiset());
        assert(refs_sorted(x.drop_first())) by {
            assert forall|p: int, q: int| 0 <= p < q < x.drop_first().len() implies !ref_lt(
                #[trigger] x.drop_first()[q],
                #[trigger] x.drop_first()[p],
            ) by {
                assert(x.drop_first()[q] == x[q + 1] && x.drop_first()[p] == x[p + 1]);
            }
        }
        assert(refs_sorted(y.drop_first())) by {
            assert forall|p: int, q: int| 0 <= p < q < y.drop_first().len() implies !ref_lt(
                #[trigger] y.drop_first()[q],
                #[trigger] y.drop_first()[p],
            ) by {
                assert(y.drop_first()[q] == y[q + 1] && y.drop_first()[p] == y[p + 1]);
            }
        }
        lemma_sorted_refs_unique(x.drop_first(), y.drop_first());
        assert(x =~= seq![a] + x.drop_first());
        assert(y =~= seq![b] + y.drop_first());
    }
}

/// The listing of branches and tags is determined by the four outputs: any
/// two sequences that are sorted and hold the references found are the
/// same, namely `sorted_refs` of them. So two calls of `get_all_refs` on
/// the same outputs give the same references in the same order.
pub proof fn lemma_all_refs_one_listing(
    x: Seq<(GitRefType, Seq<char>)>,
    y: Seq<(GitRefType, Seq<char>)>,
    local_branches: CommandOutputView,
    remote_branches: CommandOutputView,
    tags: CommandOutputView,
    remote_tags: CommandOutputView,
)
    requires
        refs_sorted(x),
        refs_sorted(y),
        x.to_multiset() =~= found_refs(local_branches, remote_branches, tags, remote_tags).to_multiset(),
        y.to_multiset() =~= found_refs(local_branches, remote_branches, tags, remote_tags).to_multiset(),
    ensures
        x == y,
        x == sorted_refs(found_refs(local_branches, remote_branches, tags, remote_tags)),
{
    let f = found_refs(local_branches, remote_branches, tags, remote_tags);
    lemma_sorted_refs_unique(x, y);
    let z = sorted_refs(f);
    assert(refs_sorted(x) && x.to_multiset() =~= f.to_multiset());
    assert(refs_sorted(z) && z.to_multiset() =~= f.to_multiset());
    lemma_sorted_refs_unique(x, z);
}

/// References are listed by kind, local branches first, then remote
/// branches, local tags and remote tags, and by name within a kind.
pub proof fn lemma_ref_order_by_kind_then_name(a: (GitRefType, Seq<char>), b: (GitRefType, Seq<char>))
    ensures
        a.0 == GitRefType::LocalBranch && b.0 != GitRefType::LocalBranch ==> ref_lt(a, b),
        a.0 == GitRefType::RemoteBranch && (b.0 == GitRefType::LocalTag || b.0
            == GitRefType::RemoteTag) ==> ref_lt(a, b),
        a.0 == GitRefType::LocalTag && b.0 == GitRefType::RemoteTag ==> ref_lt(a, b),
        a.0 == b.0 ==> (ref_lt(a, b) <==> chars_lt(a.1, b.1)),
{
}

/// A line `<sha>\trefs/tags/<name>` of `git ls-remote --tags`, with no
/// surrounding whitespace and no other tab, names the tag `<name>`, unless
/// it is a peeled tag (`<name>` ending in `^{}`).
pub proof fn lemma_ls_remote_tag_line(h: Seq<char>, n: Seq<char>)
    requires
        index_of_char(h, '\t') == h.len(),
        index_of_char(n, '\t') == n.len(),
        trim(h + seq!['\t'] + "refs/tags/"@ + n) == h + seq!['\t'] + "refs/tags/"@ + n,
    ensures
        ls_remote_tag(h + seq!['\t'] + "refs/tags/"@ + n) == (if has_suffix(n, "^{}"@) {
            None
        } else {
            Some(n)
        }),
{
    reveal_strlit("refs/tags/");
    let pre = "refs/tags/"@;
    let line = h + seq!['\t'] + pre + n;
    let rest = pre + n;
    assert(line =~= h + (seq!['\t'] + rest));
    crate::text::lemma_index_of_char_concat(h, seq!['\t'] + rest, '\t');
    crate::text::lemma_index_of_char_at(seq!['\t'] + rest, '\t', 0);
    assert(index_of_char(line, '\t') == h.len());
    assert(line.subrange(h.len() + 1 as int, line.len() as int) =~= rest);
    crate::text::lemma_index_of_char_at(pre, '\t', pre.len() as int);
    crate::text::lemma_index_of_char_concat(pre, n, '\t');
    assert(index_of_char(rest, '\t') == rest.len());
    assert(rest.subrange(0, rest.len() as int) =~= rest);
    assert(rest.subrange(0, pre.len() as int) =~= pre);
    assert(rest.subrange(pre.len() as int, rest.len() as int) =~= n);
}

/// `ref_lt` orders any two different references one way or the other, and
/// never both ways: it is a strict total order on (kind, name).
pub proof fn lemma_ref_order_total(a: (GitRefType, Seq<char>), b: (GitRefType, Seq<char>))
    ensures
        a != b ==> ref_lt(a, b) || ref_lt(b, a),
        !(ref_lt(a, b) && ref_lt(b, a)),
        !ref_lt(a, a),
{
    lemma_ref_lt_asymmetric(a, b);
    lemma_ref_lt_asymmetric(a, a);
    lemma_chars_lt_total(a.1, b.1);
    if a.0 != b.0 {
        assert(a.0.spec_sort_order() != b.0.spec_sort_order());
    }
}

proof fn lemma_listed_refs_shape(ls: Seq<Seq<char>>, t: GitRefType, skip_head: bool)
    ensures
        forall|i: int|
            0 <= i < listed_refs(ls, t, skip_head).len() ==> {
                let e = #[trigger] listed_refs(ls, t, skip_head)[i];
                &&& e.0 == t
                &&& e.1.len() > 0
                &&& skip_head ==> !has_infix(e.1, "HEAD"@)
            },
    decreases ls.len(),
{
    if ls.len() > 0 {
        lemma_listed_refs_shape(ls.drop_first(), t, skip_head);
        let n = trim(ls[0]);
        let rest = listed_refs(ls.drop_first(), t, skip_head);
        if n.len() > 0 && !(skip_head && has_infix(n, "HEAD"@)) {
            assert forall|i: int| 0 < i < listed_refs(ls, t, skip_head).len() implies listed_refs(
                ls,
                t,
                skip_head,
            )[i] == rest[i - 1] by {}
        }
    }
}

proof fn lemma_remote_tag_refs_shape(ls: Seq<Seq<char>>, local_tags: Seq<Seq<char>>)
    ensures
        forall|i: int|
            0 <= i < remote_tag_refs(ls, local_tags).len() ==> {
                let e = #[trigger] remote_tag_refs(ls, local_tags)[i];
                &&& e.0 == GitRefType::RemoteTag
                &&& !local_tags.contains(e.1)
                &&& !has_suffix(e.1, "^{}"@)
            },
    decreases ls.len(),
{
    if ls.len() > 0 {
        lemma_remote_tag_refs_shape(ls.drop_first(), local_tags);
        let rest = remote_tag_refs(ls.drop_first(), local_tags);
        match ls_remote_tag(ls[0]) {
            Some(n) => if !local_tags.contains(n) {
                assert forall|i: int| 0 < i < remote_tag_refs(ls, local_tags).len() implies remote_tag_refs(
                    ls,
                    local_tags,
                )[i] == rest[i - 1] by {}
            },
            None => {},
        }
    }
}

/// The references of a `git branch` or `git tag` listing are its lines, each
/// with surrounding whitespace removed, in order, with only the blank ones
/// (and, where `skip_head`, those that name `HEAD`) left out, each of kind
/// `t`.
pub proof fn lemma_listed_refs_are_lines(ls: Seq<Seq<char>>, t: GitRefType, skip_head: bool)
    ensures
        listed_refs(ls, t, skip_head) =~= ls.map_values(|l: Seq<char>| trim(l)).filter(
            |n: Seq<char>| n.len() > 0 && !(skip_head && has_infix(n, "HEAD"@)),
        ).map_values(|n: Seq<char>| (t, n)),
    decreases ls.len(),
{
    let f = |l: Seq<char>| trim(l);
    let p = |n: Seq<char>| n.len() > 0 && !(skip_head && has_infix(n, "HEAD"@));
    let g = |n: Seq<char>| (t, n);
    if ls.len() == 0 {
        assert(ls.map_values(f) =~= Seq::<Seq<char>>::empty());
        assert(ls.map_values(f).filter(p) =~= Seq::<Seq<char>>::empty());
    } else {
        lemma_listed_refs_are_lines(ls.drop_first(), t, skip_head);
        let rest = ls.drop_first().map_values(f);
        assert(ls.map_values(f) =~= seq![trim(ls[0])] + rest);
        rest.lemma_filter_prepend(trim(ls[0]), p);
        let fr = rest.filter(p);
        if p(trim(ls[0])) {
            assert((seq![trim(ls[0])] + fr).map_values(g) =~= seq![(t, trim(ls[0]))]
                + fr.map_values(g));
        } else {
            assert(Seq::<Seq<char>>::empty() + fr =~= fr);
        }
    }
}

/// Each line of a `git branch` or `git tag` listing that is not blank (and,
/// where `skip_head`, does not name `HEAD`) gives a reference of kind `t`,
/// and every reference comes from such a line.
pub proof fn lemma_listed_refs_members(ls: Seq<Seq<char>>, t: GitRefType, skip_head: bool)
    ensures
        forall|i: int|
            0 <= i < ls.len() && trim(ls[i]).len() > 0 && !(skip_head && has_infix(
                trim(ls[i]),
                "HEAD"@,
            )) ==> listed_refs(ls, t, skip_head).contains((t, #[trigger] trim(ls[i]))),
        forall|x: (GitRefType, Seq<char>)|
            #[trigger] listed_refs(ls, t, skip_head).contains(x) ==> x.0 == t && x.1.len() > 0
                && !(skip_head && has_infix(x.1, "HEAD"@)) && exists|i: int|
                0 <= i < ls.len() && trim(ls[i]) == x.1,
    decreases ls.len(),
{
    if ls.len() > 0 {
        lemma_listed_refs_members(ls.drop_first(), t, skip_head);
        let all = listed_refs(ls, t, skip_head);
        let rest = listed_refs(ls.drop_first(), t, skip_head);
        let n0 = trim(ls[0]);
        let kept = n0.len() > 0 && !(skip_head && has_infix(n0, "HEAD"@));
        assert forall|i: int|
            0 <= i < ls.len() && trim(ls[i]).len() > 0 && !(skip_head && has_infix(
                trim(ls[i]),
                "HEAD"@,
            )) implies all.contains((t, #[trigger] trim(ls[i]))) by {
            if i == 0 {
                assert(all[0] == (t, n0));
            } else {
                assert(ls[i] == ls.drop_first()[i - 1]);
                assert(rest.contains((t, trim(ls[i]))));
                let j = choose|j: int| 0 <= j < rest.len() && rest[j] == (t, trim(ls[i]));
                if kept {
                    assert(all[j + 1] == rest[j]);
                } else {
                    assert(all[j] == rest[j]);
                }
            }
        }
        assert forall|x: (GitRefType, Seq<char>)| #[trigger] all.contains(x) implies x.0 == t
            && x.1.len() > 0 && !(skip_head && has_infix(x.1, "HEAD"@)) && exists|i: int|
            0 <= i < ls.len() && trim(ls[i]) == x.1 by {
            let j = choose|j: int| 0 <= j < all.len() && all[j] == x;
            if kept && j == 0 {
                assert(x == (t, n0));
            } else {
                let k = if kept {
                    j - 1
                } else {
                    j
                };
                assert(rest[k] == x);
                assert(rest.contains(x));
                let i = choose|i: int|
                    0 <= i < ls.drop_first().len() && trim(ls.drop_first()[i]) == x.1;
                assert(ls[i + 1] == ls.drop_first()[i]);
            }
        }
    }
}

/// Each line of `git ls-remote --tags` that names a tag which is not a
/// local tag gives a remote tag, and every remote tag comes from such a
/// line.
pub proof fn lemma_remote_tag_refs_members(ls: Seq<Seq<char>>, local_tags: Seq<Seq<char>>)
    ensures
        forall|i: int|
            0 <= i < ls.len() && (#[trigger] ls_remote_tag(ls[i])) is Some && !local_tags.contains(
                ls_remote_tag(ls[i])->0,
            ) ==> remote_tag_refs(ls, local_tags).contains(
                (GitRefType::RemoteTag, ls_remote_tag(ls[i])->0),
            ),
        forall|x: (GitRefType, Seq<char>)|
            #[trigger] remote_tag_refs(ls, local_tags).contains(x) ==> x.0 == GitRefType::RemoteTag
                && !local_tags.contains(x.1) && exists|i: int|
                0 <= i < ls.len() && ls_remote_tag(ls[i]) == Some(x.1),
    decreases ls.len(),
{
    if ls.len() > 0 {
        lemma_remote_tag_refs_members(ls.drop_first(), local_tags);
        let all = remote_tag_refs(ls, local_tags);
        let rest = remote_tag_refs(ls.drop_first(), local_tags);
        let kept = ls_remote_tag(ls[0]) is Some && !local_tags.contains(ls_remote_tag(ls[0])->0);
        if kept {
            assert(all =~= seq![(GitRefType::RemoteTag, ls_remote_tag(ls[0])->0)] + rest);
        } else {
            assert(all =~= rest);
        }
        assert forall|i: int|
            0 <= i < ls.len() && (#[trigger] ls_remote_tag(ls[i])) is Some && !local_tags.contains(
                ls_remote_tag(ls[i])->0,
            ) implies all.contains((GitRefType::RemoteTag, ls_remote_tag(ls[i])->0)) by {
            if i == 0 {
                assert(all[0] == (GitRefType::RemoteTag, ls_remote_tag(ls[0])->0));
            } else {
                assert(ls[i] == ls.drop_first()[i - 1]);
                let x = (GitRefType::RemoteTag, ls_remote_tag(ls[i])->0);
                assert(rest.contains(x));
                let j = choose|j: int| 0 <= j < rest.len() && rest[j] == x;
                if kept {
                    assert(all[j + 1] == rest[j]);
                } else {
                    assert(all[j] == rest[j]);
                }
            }
        }
        assert forall|x: (GitRefType, Seq<char>)| #[trigger] all.contains(x) implies x.0
            == GitRefType::RemoteTag && !local_tags.contains(x.1) && exists|i: int|
            0 <= i < ls.len() && ls_remote_tag(ls[i]) == Some(x.1) by {
            let j = choose|j: int| 0 <= j < all.len() && all[j] == x;
            if kept && j == 0 {
                assert(x == (GitRefType::RemoteTag, ls_remote_tag(ls[0])->0));
            } else {
                let k = if kept {
                    j - 1
                } else {
                    j
                };
                assert(rest[k] == x);
                assert(rest.contains(x));
                let i = choose|i: int|
                    0 <= i < ls.drop_first().len() && ls_remote_tag(ls.drop_first()[i]) == Some(
                        x.1,
                    );
                assert(ls[i + 1] == ls.drop_first()[i]);
            }
        }
    }
}

/// The name is that of a local tag: a line of a successful tag listing
/// gives it.
pub open spec fn names_local_tag(tags: CommandOutputView, n: Seq<char>) -> bool {
    tags.success && n.len() > 0 && exists|j: int|
        0 <= j < lines(tags.stdout).len() && trim(lines(tags.stdout)[j]) == n
}

/// Nothing listed is lost: every line of a successful listing that names a
/// reference gives it, and the only names left out are blank lines, remote
/// branches that name `HEAD`, and remote tags that are peeled, unnamed or
/// also local tags. Conversely every reference found comes from a line of
/// the listing of its kind.
pub proof fn lemma_found_refs_complete(
    local_branches: CommandOutputView,
    remote_branches: CommandOutputView,
    tags: CommandOutputView,
    remote_tags: CommandOutputView,
)
    ensures
        local_branches.success ==> forall|i: int|
            0 <= i < lines(local_branches.stdout).len() && trim(lines(local_branches.stdout)[i]).len()
                > 0 ==> found_refs(local_branches, remote_branches, tags, remote_tags).contains(
                (GitRefType::LocalBranch, #[trigger] trim(lines(local_branches.stdout)[i])),
            ),
        remote_branches.success ==> forall|i: int|
            0 <= i < lines(remote_branches.stdout).len() && trim(
                lines(remote_branches.stdout)[i],
            ).len() > 0 && !has_infix(trim(lines(remote_branches.stdout)[i]), "HEAD"@)
                ==> found_refs(local_branches, remote_branches, tags, remote_tags).contains(
                (GitRefType::RemoteBranch, #[trigger] trim(lines(remote_branches.stdout)[i])),
            ),
        tags.success ==> forall|i: int|
            0 <= i < lines(tags.stdout).len() && trim(lines(tags.stdout)[i]).len() > 0
                ==> found_refs(local_branches, remote_branches, tags, remote_tags).contains(
                (GitRefType::LocalTag, #[trigger] trim(lines(tags.stdout)[i])),
            ),
        remote_tags.success ==> forall|i: int|
            0 <= i < lines(remote_tags.stdout).len() && (#[trigger] ls_remote_tag(
                lines(remote_tags.stdout)[i],
            )) is Some && !names_local_tag(tags, ls_remote_tag(lines(remote_tags.stdout)[i])->0)
                ==> found_refs(local_branches, remote_branches, tags, remote_tags).contains(
                (GitRefType::RemoteTag, ls_remote_tag(lines(remote_tags.stdout)[i])->0),
            ),
        forall|x: (GitRefType, Seq<char>)|
            #[trigger] found_refs(local_branches, remote_branches, tags, remote_tags).contains(x)
                ==> match x.0 {
                GitRefType::LocalBranch => local_branches.success && exists|i: int|
                    0 <= i < lines(local_branches.stdout).len() && trim(
                        lines(local_branches.stdout)[i],
                    ) == x.1 && x.1.len() > 0,
                GitRefType::RemoteBranch => remote_branches.success && !has_infix(x.1, "HEAD"@)
                    && exists|i: int|
                    0 <= i < lines(remote_branches.stdout).len() && trim(
                        lines(remote_branches.stdout)[i],
                    ) == x.1 && x.1.len() > 0,
                GitRefType::LocalTag => names_local_tag(tags, x.1),
                GitRefType::RemoteTag => remote_tags.success && !names_local_tag(tags, x.1)
                    && exists|i: int|
                    0 <= i < lines(remote_tags.stdout).len() && ls_remote_tag(
                        lines(remote_tags.stdout)[i],
                    ) == Some(x.1),
            },
{
    let a = output_refs(local_branches, GitRefType::LocalBranch, false);
    let b = output_refs(remote_branches, GitRefType::RemoteBranch, true);
    let c = output_refs(tags, GitRefType::LocalTag, false);
    let local_names = c.map_values(|e: (GitRefType, Seq<char>)| e.1);
    let d = if remote_tags.success {
        remote_tag_refs(lines(remote_tags.stdout), local_names)
    } else {
        Seq::empty()
    };
    let all = found_refs(local_branches, remote_branches, tags, remote_tags);
    assert(all =~= a + b + c + d);
    lemma_listed_refs_members(lines(local_branches.stdout), GitRefType::LocalBranch, false);
    lemma_listed_refs_members(lines(remote_branches.stdout), GitRefType::RemoteBranch, true);
    lemma_listed_refs_members(lines(tags.stdout), GitRefType::LocalTag, false);
    lemma_remote_tag_refs_members(lines(remote_tags.stdout), local_names);
    // a name is among the local tag names exactly when a tag line gives it
    assert forall|n: Seq<char>| #[trigger] local_names.contains(n) <==> names_local_tag(tags, n) by {
        if local_names.contains(n) {
            let k = choose|k: int| 0 <= k < local_names.len() && local_names[k] == n;
            assert(c.contains(c[k]));
            assert(c[k].1 == n);
        }
        if names_local_tag(tags, n) {
            let j = choose|j: int|
                0 <= j < lines(tags.stdout).len() && trim(lines(tags.stdout)[j]) == n;
            assert(c.contains((GitRefType::LocalTag, trim(lines(tags.stdout)[j]))));
            let k = choose|k: int| 0 <= k < c.len() && c[k] == (GitRefType::LocalTag, n);
            assert(local_names[k] == n);
        }
    }
    assert forall|x: (GitRefType, Seq<char>)| a.contains(x) implies all.contains(x) by {
        let k = choose|k: int| 0 <= k < a.len() && a[k] == x;
        assert(all[k] == x);
    }
    assert forall|x: (GitRefType, Seq<char>)| b.contains(x) implies all.contains(x) by {
        let k = choose|k: int| 0 <= k < b.len() && b[k] == x;
        assert(all[a.len() + k] == x);
    }
    assert forall|x: (GitRefType, Seq<char>)| c.contains(x) implies all.contains(x) by {
        let k = choose|k: int| 0 <= k < c.len() && c[k] == x;
        assert(all[a.len() + b.len() + k] == x);
    }
    assert forall|x: (GitRefType, Seq<char>)| d.contains(x) implies all.contains(x) by {
        let k = choose|k: int| 0 <= k < d.len() && d[k] == x;
        assert(all[a.len() + b.len() + c.len() + k] == x);
    }
    assert forall|x: (GitRefType, Seq<char>)| #[trigger] all.contains(x) implies a.contains(x)
        || b.contains(x) || c.contains(x) || d.contains(x) by {
        let k = choose|k: int| 0 <= k < all.len() && all[k] == x;
        if k < a.len() {
            assert(a[k] == x);
        } else if k < a.len() + b.len() {
            assert(b[k - a.len()] == x);
        } else if k < a.len() + b.len() + c.len() {
            assert(c[k - a.len() - b.len()] == x);
        } else {
            assert(d[k - a.len() - b.len() - c.len()] == x);
        }
    }
}

/// Of all the references found: each has a non-empty name; no remote
/// branch has `HEAD` in its name; and no remote tag has the name of a local
/// tag, nor is a peeled tag (`^{}`).
pub proof fn lemma_found_refs_properties(
    local_branches: CommandOutputView,
    remote_branches: CommandOutputView,
    tags: CommandOutputView,
    remote_tags: CommandOutputView,
)
    ensures
        forall|i: int|
            0 <= i < found_refs(local_branches, remote_branches, tags, remote_tags).len() ==> {
                let e = #[trigger] found_refs(local_branches, remote_branches, tags, remote_tags)[i];
                &&& e.1.len() > 0 || e.0 == GitRefType::RemoteTag
                &&& e.0 == GitRefType::RemoteBranch ==> !has_infix(e.1, "HEAD"@)
                &&& e.0 == GitRefType::RemoteTag ==> !has_suffix(e.1, "^{}"@) && forall|j: int|
                    0 <= j < found_refs(local_branches, remote_branches, tags, remote_tags).len()
                        && found_refs(local_branches, remote_branches, tags, remote_tags)[j].0
                        == GitRefType::LocalTag ==> found_refs(
                        local_branches,
                        remote_branches,
                        tags,
                        remote_tags,
                    )[j].1 != e.1
            },
{
    let a = output_refs(local_branches, GitRefType::LocalBranch, false);
    let b = output_refs(remote_branches, GitRefType::RemoteBranch, true);
    let c = output_refs(tags, GitRefType::LocalTag, false);
    let local_names = c.map_values(|e: (GitRefType, Seq<char>)| e.1);
    let d = if remote_tags.success {
        remote_tag_refs(lines(remote_tags.stdout), local_names)
    } else {
        Seq::empty()
    };
    let all = found_refs(local_branches, remote_branches, tags, remote_tags);
    assert(all =~= a + b + c + d);
    if local_branches.success {
        lemma_listed_refs_shape(lines(local_branches.stdout), GitRefType::LocalBranch, false);
    }
    if remote_branches.success {
        lemma_listed_refs_shape(lines(remote_branches.stdout), GitRefType::RemoteBranch, true);
    }
    if tags.success {
        lemma_listed_refs_shape(lines(tags.stdout), GitRefType::LocalTag, false);
    }
    if remote_tags.success {
        lemma_remote_tag_refs_shape(lines(remote_tags.stdout), local_names);
    }
    assert forall|i: int| 0 <= i < all.len() implies {
        let e = #[trigger] all[i];
        &&& e.1.len() > 0 || e.0 == GitRefType::RemoteTag
        &&& e.0 == GitRefType::RemoteBranch ==> !has_infix(e.1, "HEAD"@)
        &&& e.0 == GitRefType::RemoteTag ==> !has_suffix(e.1, "^{}"@) && forall|j: int|
            0 <= j < all.len() && all[j].0 == GitRefType::LocalTag ==> all[j].1 != e.1
    } by {
        let e = all[i];
        if i < a.len() {
            assert(e == a[i]);
        } else if i < a.len() + b.len() {
            assert(e == b[i - a.len()]);
        } else if i < a.len() + b.len() + c.len() {
            assert(e == c[i - a.len() - b.len()]);
        } else {
            let k = i - a.len() - b.len() - c.len();
            assert(e == d[k]);
            assert forall|j: int| 0 <= j < all.len() && all[j].0 == GitRefType::LocalTag implies all[j].1
                != e.1 by {
                if a.len() + b.len() <= j < a.len() + b.len() + c.len() {
                    let m = j - a.len() - b.len();
                    assert(all[j] == c[m]);
                    assert(local_names[m] == c[m].1);
                    assert(local_names.contains(c[m].1));
                } else if j >= a.len() + b.len() + c.len() {
                    assert(all[j] == d[j - a.len() - b.len() - c.len()]);
                } else if j < a.len() {
                    assert(all[j] == a[j]);
                } else {
                    assert(all[j] == b[j - a.len()]);
                }
            }
        }
    }
}

// ----------------------------------------------------------------------
// Worktrees
// ----------------------------------------------------------------------

/// A worktree: where it is, the branch it has checked out (empty for a
/// detached HEAD), whether it is the main one, and whether it is bare.
#[derive(Debug, Clone)]
pub struct Worktree {
    pub path: String,
    pub branch: String,
    pub is_main: bool,
    pub is_bare: bool,
}

pub struct WorktreeView {
    pub path: Seq<char>,
    pub branch: Seq<char>,
    pub is_main: bool,
    pub is_bare: bool,
}

impl View for Worktree {
    type V = WorktreeView;

    open spec fn view(&self) -> WorktreeView {
        WorktreeView {
            path: self.path@,
            branch: self.branch@,
            is_main: self.is_main,
            is_bare: self.is_bare,
        }
    }
}

/// A copy of `w`.
pub fn copy_worktree(w: &Worktree) -> (r: Worktree)
    ensures
        r@ == w@,
{
    Worktree {
        path: w.path.clone(),
        branch: w.branch.clone(),
        is_main: w.is_main,
        is_bare: w.is_bare,
    }
}

pub open spec fn worktrees_view(v: Seq<Worktree>) -> Seq<WorktreeView> {
    Seq::new(v.len(), |i: int| v[i]@)
}

/// Where the reading of `git worktree list --porcelain` stands: the entry
/// being read and the entries read so far.
pub struct WorktreeScan {
    pub path: Seq<char>,
    pub branch: Seq<char>,
    pub bare: bool,
    pub found: Seq<WorktreeView>,
}

pub open spec fn scan_start() -> WorktreeScan {
    WorktreeScan { path: Seq::empty(), branch: Seq::empty(), bare: false, found: Seq::empty() }
}

/// The entry being read, closed; the first one closed is the main worktree.
pub open spec fn scan_entry(st: WorktreeScan) -> WorktreeView {
    WorktreeView { path: st.path, branch: st.branch, is_main: st.found.len() == 0, is_bare: st.bare }
}

/// One line of the listing: `worktree <path>` opens an entry, `branch <ref>`
/// gives its branch (without `refs/heads/`), `bare` marks it bare, and an
/// empty line closes it; other lines change nothing.
pub open spec fn scan_line(st: WorktreeScan, line: Seq<char>) -> WorktreeScan {
    if has_prefix(line, "worktree "@) {
        WorktreeScan {
            path: line.subrange("worktree "@.len() as int, line.len() as int),
            branch: Seq::empty(),
            bare: false,
            found: st.found,
        }
    } else if has_prefix(line, "branch "@) {
        WorktreeScan {
            branch: strip_prefix_or_keep(
                line.subrange("branch "@.len() as int, line.len() as int),
                "refs/heads/"@,
            ),
            ..st
        }
    } else if line =~= "bare"@ {
        WorktreeScan { bare: true, ..st }
    } else if line.len() == 0 && st.path.len() > 0 {
        WorktreeScan {
            path: Seq::empty(),
            branch: Seq::empty(),
            bare: false,
            found: st.found.push(scan_entry(st)),
        }
    } else {
        st
    }
}

pub open spec fn scan_lines(st: WorktreeScan, ls: Seq<Seq<char>>) -> WorktreeScan
    decreases ls.len(),
{
    if ls.len() == 0 {
        st
    } else {
        scan_lines(scan_line(st, ls[0]), ls.drop_first())
    }
}

/// The entries read, with the last one closed if the listing did not end
/// with an empty line.
pub open spec fn scan_finish(st: WorktreeScan) -> Seq<WorktreeView> {
    if st.path.len() > 0 {
        st.found.push(scan_entry(st))
    } else {
        st.found
    }
}

/// The worktrees listed by the output of `git worktree list --porcelain`.
pub open spec fn listed_worktrees(stdout: Seq<char>) -> Seq<WorktreeView> {
    scan_finish(scan_lines(scan_start(), lines(stdout)))
}

/// The first entry, and only it, is the main worktree, and every entry has
/// a path.
pub open spec fn main_first(found: Seq<WorktreeView>) -> bool {
    forall|i: int|
        0 <= i < found.len() ==> (#[trigger] found[i]).is_main == (i == 0) && found[i].path.len()
            > 0
}

proof fn lemma_scan_keeps_main_first(st: WorktreeScan, ls: Seq<Seq<char>>)
    requires
        main_first(st.found),
    ensures
        main_first(scan_lines(st, ls).found),
        main_first(scan_finish(scan_lines(st, ls))),
    decreases ls.len(),
{
    if ls.len() > 0 {
        let next = scan_line(st, ls[0]);
        assert(main_first(next.found));
        lemma_scan_keeps_main_first(next, ls.drop_first());
    }
}

/// Of the worktrees that `git worktree list --porcelain` lists, the first
/// and only the first is the main one, and each has a non-empty path.
pub proof fn lemma_listed_worktrees_main_first(stdout: Seq<char>)
    ensures
        main_first(listed_worktrees(stdout)),
{
    lemma_scan_keeps_main_first(scan_start(), lines(stdout));
}

proof fn lemma_scan_lines_push(st: WorktreeScan, ls: Seq<Seq<char>>, l: Seq<char>)
    ensures
        scan_lines(st, ls.push(l)) == scan_line(scan_lines(st, ls), l),
    decreases ls.len(),
{
    if ls.len() > 0 {
        assert(ls.push(l).drop_first() =~= ls.drop_first().push(l));
        assert(ls.push(l)[0] == ls[0]);
        lemma_scan_lines_push(scan_line(st, ls[0]), ls.drop_first(), l);
    } else {
        assert(ls.push(l).drop_first() =~= Seq::<Seq<char>>::empty());
        assert(ls.push(l)[0] == l);
        assert(scan_lines(scan_line(st, l), Seq::<Seq<char>>::empty()) == scan_line(st, l));
    }
}

/// The output ends in a carriage return that its last line keeps and
/// that changes what is read: the path of a `worktree ` line, or, while an
/// entry is open, the branch of a `branch ` line or the mark of a `bare`
/// line (which without the carriage return would mark the entry bare).
pub open spec fn final_cr_is_read(stdout: Seq<char>) -> bool {
    let ls = lines(stdout);
    let l = ls.last();
    let st = scan_lines(scan_start(), ls.drop_last());
    &&& stdout.len() > 0
    &&& stdout.last() == '\r'
    &&& (has_prefix(l, "worktree "@) || (st.path.len() > 0 && (has_prefix(l, "branch "@) || (
    l.drop_last() =~= "bare"@ && !st.bare))))
}

/// Reading `l` and reading it without its last character lead to the same
/// entries at the end, when that character is a carriage return that
/// changes nothing read.
proof fn lemma_scan_line_without_cr(st: WorktreeScan, l: Seq<char>)
    requires
        l.len() > 0,
        l.last() == '\r',
        !has_prefix(l, "worktree "@),
        !(st.path.len() > 0 && (has_prefix(l, "branch "@) || (l.drop_last() =~= "bare"@
            && !st.bare))),
    ensures
        scan_finish(scan_line(st, l.drop_last())) == scan_finish(scan_line(st, l)),
{
    reveal_strlit("worktree ");
    reveal_strlit("branch ");
    reveal_strlit("bare");
    let m = l.drop_last();
    let w = "worktree "@;
    let b = "branch "@;
    if has_prefix(m, w) {
        assert(l.subrange(0, w.len() as int) =~= m.subrange(0, w.len() as int));
        assert(false);
    }
    if has_prefix(l, b) {
        assert(l.len() > b.len()) by {
            if l.len() == b.len() {
                assert(l[6] == b[6]);
            }
        }
        assert(m.subrange(0, b.len() as int) =~= l.subrange(0, b.len() as int));
        assert(has_prefix(m, b));
        assert(!(m =~= "bare"@)) by {
            assert(m[0] == 'b' && m[1] == 'r');
        }
    } else {
        if has_prefix(m, b) {
            assert(l.subrange(0, b.len() as int) =~= m.subrange(0, b.len() as int));
            assert(false);
        }
        assert(!(l =~= "bare"@)) by {
            if l.len() == 4 {
                assert(l[3] == '\r');
                assert("bare"@[3] == 'e');
            }
        }
        assert(scan_line(st, l) == st);
        if m.len() == 0 && st.path.len() > 0 {
            assert(scan_finish(scan_line(st, m)) =~= scan_finish(st));
        }
        if m =~= "bare"@ && st.bare {
            assert(scan_line(st, m) == st);
        }
    }
}

/// Reading `l` and reading it without its last character, a carriage
/// return that is read, lead to different entries at the end.
proof fn lemma_scan_line_cr_is_read(st: WorktreeScan, l: Seq<char>)
    requires
        l.len() > 0,
        l.last() == '\r',
        has_prefix(l, "worktree "@) || (st.path.len() > 0 && (has_prefix(l, "branch "@) || (
        l.drop_last() =~= "bare"@ && !st.bare))),
    ensures
        scan_finish(scan_line(st, l.drop_last())) != scan_finish(scan_line(st, l)),
{
    reveal_strlit("worktree ");
    reveal_strlit("branch ");
    reveal_strlit("bare");
    let m = l.drop_last();
    let w = "worktree "@;
    let b = "branch "@;
    let h = "refs/heads/"@;
    reveal_strlit("refs/heads/");
    if has_prefix(l, w) {
        assert(l.len() > w.len()) by {
            if l.len() == w.len() {
                assert(l[8] == w[8]);
            }
        }
        assert(m.subrange(0, w.len() as int) =~= l.subrange(0, w.len() as int));
        let a = scan_finish(scan_line(st, l));
        let c = scan_finish(scan_line(st, m));
        let p = l.subrange(9, l.len() as int);
        let q = m.subrange(9, m.len() as int);
        assert(a =~= st.found.push(scan_entry(scan_line(st, l))));
        assert(a.len() == st.found.len() + 1);
        if q.len() == 0 {
            assert(c =~= st.found);
        } else {
            assert(c =~= st.found.push(scan_entry(scan_line(st, m))));
            assert(a.last().path =~= p);
            assert(c.last().path =~= q);
            assert(p.len() != q.len());
        }
    } else {
        assert(st.path.len() > 0);
        if has_prefix(l, b) {
            assert(l.len() > b.len()) by {
                if l.len() == b.len() {
                    assert(l[6] == b[6]);
                }
            }
            assert(m.subrange(0, b.len() as int) =~= l.subrange(0, b.len() as int));
            assert(!has_prefix(m, w)) by {
                if has_prefix(m, w) {
                    assert(m[0] == 'b');
                    assert(w[0] == 'w');
                    assert(m.subrange(0, w.len() as int)[0] == m[0]);
                }
            }
            assert(!has_prefix(l, w));
            let r = l.subrange(7, l.len() as int);
            let r2 = m.subrange(7, m.len() as int);
            assert(r2 =~= r.drop_last());
            let x = strip_prefix_or_keep(r, h);
            let y = strip_prefix_or_keep(r2, h);
            if has_prefix(r2, h) {
                assert(r.subrange(0, h.len() as int) =~= r2.subrange(0, h.len() as int));
            }
            if has_prefix(r, h) && !has_prefix(r2, h) {
                assert(r.len() == h.len()) by {
                    if r.len() > h.len() {
                        assert(r2.subrange(0, h.len() as int) =~= r.subrange(0, h.len() as int));
                    }
                }
                assert(r[10] == h[10]);
                assert(r[10] == l.last());
            }
            assert(x.len() != y.len());
            let a = scan_finish(scan_line(st, l));
            let c = scan_finish(scan_line(st, m));
            assert(a.last().branch =~= x);
            assert(c.last().branch =~= y);
        } else {
            assert(m =~= "bare"@ && !st.bare);
            assert(!has_prefix(l, b));
            assert(!(l =~= "bare"@)) by {
                if l.len() == 4 {
                    assert(l[3] == '\r');
                    assert("bare"@[3] == 'e');
                }
            }
            assert(!has_prefix(m, w));
            assert(!has_prefix(m, b));
            assert(scan_line(st, l) == st);
            let a = scan_finish(scan_line(st, l));
            let c = scan_finish(scan_line(st, m));
            assert(!a.last().is_bare);
            assert(c.last().is_bare);
        }
    }
}

/// A blank line at the end of the listing changes nothing: the output
/// `stdout` and the same output followed by a line ending list the same
/// worktrees, whether or not `stdout` already ended with a line ending.
/// Where it ends in a carriage return, which the added line ending takes
/// off the last line, this holds exactly when that carriage return is not
/// read.
pub proof fn lemma_trailing_blank_line(stdout: Seq<char>)
    ensures
        listed_worktrees(stdout.push('\n')) == listed_worktrees(stdout) <==> !final_cr_is_read(
            stdout,
        ),
{
    lemma_lines_push_newline(stdout);
    reveal_strlit("worktree ");
    reveal_strlit("branch ");
    reveal_strlit("bare");
    if stdout.len() == 0 || stdout.last() == '\n' {
        lemma_scan_lines_push(scan_start(), lines(stdout), Seq::<char>::empty());
        let st = scan_lines(scan_start(), lines(stdout));
        assert(!has_prefix(Seq::<char>::empty(), "worktree "@));
        assert(!has_prefix(Seq::<char>::empty(), "branch "@));
        assert(!(Seq::<char>::empty() =~= "bare"@));
        if st.path.len() > 0 {
            assert(scan_finish(scan_line(st, Seq::<char>::empty())) =~= scan_finish(st));
        }
    } else if stdout.last() == '\r' {
        let ls = lines(stdout);
        let l = ls.last();
        let init = ls.drop_last();
        let st = scan_lines(scan_start(), init);
        assert(ls =~= init.push(l));
        lemma_scan_lines_push(scan_start(), init, l);
        lemma_scan_lines_push(scan_start(), init, l.drop_last());
        if final_cr_is_read(stdout) {
            lemma_scan_line_cr_is_read(st, l);
        } else {
            lemma_scan_line_without_cr(st, l);
        }
    }
}

/// A block of `git worktree list --porcelain` for the worktree at `path`
/// on branch `branch`.
pub open spec fn porcelain_block(path: Seq<char>, branch: Seq<char>) -> Seq<char> {
    "worktree "@ + path + seq!['\n'] + "branch refs/heads/"@ + branch + seq!['\n']
}

/// A block `worktree <path>` / `branch refs/heads/<branch>` after a listing
/// that is empty or ends with a blank line adds one worktree at `path` on
/// `branch`, not bare, which is the main one exactly when it comes first
/// (for a path and a branch that are one line each, not ending in a
/// carriage return).
pub proof fn lemma_listing_block(before: Seq<char>, path: Seq<char>, branch: Seq<char>)
    requires
        before.len() == 0 || (before.len() >= 2 && before.last() == '\n' && before[before.len()
            - 2] == '\n'),
        path.len() > 0,
        index_of_char(path, '\n') == path.len(),
        index_of_char(branch, '\n') == branch.len(),
        path.last() != '\r',
        !(branch.len() > 0 && branch.last() == '\r'),
    ensures
        listed_worktrees(before + porcelain_block(path, branch)) == listed_worktrees(before).push(
            WorktreeView {
                path,
                branch,
                is_main: listed_worktrees(before).len() == 0,
                is_bare: false,
            },
        ),
{
    reveal_strlit("worktree ");
    reveal_strlit("branch refs/heads/");
    reveal_strlit("branch ");
    reveal_strlit("refs/heads/");
    reveal_strlit("bare");
    let w = "worktree "@;
    let bh = "branch refs/heads/"@;
    let wl = w + path;
    let bl = bh + branch;
    crate::text::lemma_index_of_char_at(w, '\n', w.len() as int);
    crate::text::lemma_index_of_char_at(bh, '\n', bh.len() as int);
    crate::text::lemma_index_of_char_concat(w, path, '\n');
    crate::text::lemma_index_of_char_concat(bh, branch, '\n');
    assert(wl.last() == path.last());
    if branch.len() > 0 {
        assert(bl.last() == branch.last());
    } else {
        assert(bl.last() == '/');
    }
    crate::text::lemma_lines_one_line(wl);
    crate::text::lemma_lines_one_line(bl);
    let x = wl.push('\n');
    let y = bl.push('\n');
    crate::text::lemma_lines_concat(x, y);
    assert(porcelain_block(path, branch) =~= x + y);
    let all = before + porcelain_block(path, branch);
    crate::text::lemma_lines_concat(before, x + y);
    let lb = lines(before);
    assert(lines(all) =~= lb.push(wl).push(bl));
    lemma_scan_lines_push(scan_start(), lb.push(wl), bl);
    lemma_scan_lines_push(scan_start(), lb, wl);
    let st = scan_lines(scan_start(), lb);
    // the listing before ends with every entry closed
    assert(st.path.len() == 0) by {
        if before.len() > 0 {
            let b0 = before.drop_last();
            assert(before =~= b0.push('\n'));
            assert(b0.last() == '\n');
            crate::text::lemma_lines_push_newline(b0);
            lemma_scan_lines_push(scan_start(), lines(b0), Seq::<char>::empty());
            assert(!has_prefix(Seq::<char>::empty(), w));
            assert(!has_prefix(Seq::<char>::empty(), "branch "@));
            assert(!(Seq::<char>::empty() =~= "bare"@));
        } else {
            assert(lb =~= Seq::<Seq<char>>::empty());
        }
    }
    assert(listed_worktrees(before) == st.found);
    assert(has_prefix(wl, w)) by {
        assert(wl.subrange(0, w.len() as int) =~= w);
    }
    assert(wl.subrange(w.len() as int, wl.len() as int) =~= path);
    let st1 = scan_line(st, wl);
    assert(st1.path =~= path && st1.found == st.found && !st1.bare);
    assert(!has_prefix(bl, w)) by {
        assert(bl.subrange(0, w.len() as int)[0] == 'b');
    }
    assert(has_prefix(bl, "branch "@)) by {
        assert(bl.subrange(0, 7) =~= "branch "@);
    }
    let r = bl.subrange(7, bl.len() as int);
    assert(r =~= "refs/heads/"@ + branch);
    assert(r.subrange(0, 11) =~= "refs/heads/"@);
    assert(r.subrange(11, r.len() as int) =~= branch);
    let st2 = scan_line(st1, bl);
    assert(st2.branch =~= branch && st2.path =~= path && st2.found == st.found && !st2.bare);
}

/// All worktrees, from the output of `git worktree list --porcelain`.
pub fn list_worktrees(output: &CommandOutput) -> (r: Result<Vec<Worktree>, GitError>)
    ensures
        output.success ==> (r matches Ok(v) && worktrees_view(v@) =~= listed_worktrees(
            output.stdout@,
        )),
        !output.success ==> (r matches Err(GitError::CommandFailed { action: a, stderr: e })
            && a == GitAction::ListWorktrees && e@ == output.stderr@),
{
    if !output.success {
        return Err(
            GitError::CommandFailed {
                action: GitAction::ListWorktrees,
                stderr: output.stderr.clone(),
            },
        );
    }
    let s = chars_of(output.stdout.as_str());
    let wt_prefix = chars_of("worktree ");
    let branch_prefix = chars_of("branch ");
    let heads_prefix = chars_of("refs/heads/");
    let bare_word = chars_of("bare");
    let n = s.len();
    let mut cur_path: Vec<char> = Vec::new();
    let mut cur_branch: Vec<char> = Vec::new();
    let mut is_bare = false;
    let mut out: Vec<Worktree> = Vec::new();
    let mut pos: usize = 0;
    assert(s@.subrange(0, n as int) =~= s@);
    assert(worktrees_view(out@) =~= Seq::<WorktreeView>::empty());
    while pos < n
        invariant
            n == s.len(),
            pos <= n,
            wt_prefix@ == "worktree "@,
            branch_prefix@ == "branch "@,
            heads_prefix@ == "refs/heads/"@,
            bare_word@ == "bare"@,
            scan_lines(scan_start(), lines(s@)) == scan_lines(
                WorktreeScan {
                    path: cur_path@,
                    branch: cur_branch@,
                    bare: is_bare,
                    found: worktrees_view(out@),
                },
                lines(s@.subrange(pos as int, n as int)),
            ),
        decreases n - pos,
    {
        let (a, b, next) = next_line(&s, pos);
        let ghost ls = lines(s@.subrange(pos as int, n as int));
        assert(ls.drop_first() =~= lines(s@.subrange(next as int, n as int)));
        let line = sub_chars(&s, a, b);
        let ghost st = WorktreeScan {
            path: cur_path@,
            branch: cur_branch@,
            bare: is_bare,
            found: worktrees_view(out@),
        };
        if starts_with(&line, &wt_prefix) {
            cur_path = sub_chars(&line, wt_prefix.len(), line.len());
            cur_branch = Vec::new();
            is_bare = false;
        } else if starts_with(&line, &branch_prefix) {
            let rest = sub_chars(&line, branch_prefix.len(), line.len());
            cur_branch = strip_prefix_chars(&rest, &heads_prefix);
        } else if chars_eq(&line, &bare_word) {
            is_bare = true;
        } else if line.len() == 0 && cur_path.len() > 0 {
            let ghost old_out = out@;
            let is_main = out.len() == 0;
            out.push(
                Worktree {
                    path: string_from_chars(&cur_path),
                    branch: string_from_chars(&cur_branch),
                    is_main,
                    is_bare,
                },
            );
            assert(worktrees_view(out@) =~= worktrees_view(old_out).push(scan_entry(st)));
            cur_path = Vec::new();
            cur_branch = Vec::new();
            is_bare = false;
        }
        assert(WorktreeScan {
            path: cur_path@,
            branch: cur_branch@,
            bare: is_bare,
            found: worktrees_view(out@),
        } == scan_line(st, line@));
        pos = next;
    }
    assert(s@.subrange(n as int, n as int) =~= Seq::<char>::empty());
    if cur_path.len() > 0 {
        let ghost st = WorktreeScan {
            path: cur_path@,
            branch: cur_branch@,
            bare: is_bare,
            found: worktrees_view(out@),
        };
        let ghost old_out = out@;
        let is_main = out.len() == 0;
        out.push(
            Worktree {
                path: string_from_chars(&cur_path),
                branch: string_from_chars(&cur_branch),
                is_main,
                is_bare,
            },
        );
        assert(worktrees_view(out@) =~= worktrees_view(old_out).push(scan_entry(st)));
    }
    Ok(out)
}

/// The first worktree of `worktrees` that is the main one, if any.
pub fn find_main_worktree(worktrees: &Vec<Worktree>) -> (r: Option<&Worktree>)
    ensures
        r is None <==> forall|i: int| 0 <= i < worktrees.len() ==> !(#[trigger] worktrees[i]).is_main,
        r matches Some(w) ==> exists|i: int|
            0 <= i < worktrees.len() && *w == worktrees[i] && w.is_main && forall|j: int|
                0 <= j < i ==> !(#[trigger] worktrees[j]).is_main,
{
    let mut i: usize = 0;
    while i < worktrees.len()
        invariant
            i <= worktrees.len(),
            forall|j: int| 0 <= j < i ==> !(#[trigger] worktrees[j]).is_main,
        decreases worktrees.len() - i,
    {
        if worktrees[i].is_main {
            return Some(&worktrees[i]);
        }
        i = i + 1;
    }
    None
}

/// The top-level directory of the main worktree, from the output of
/// `git worktree list --porcelain`, whichever worktree the command ran in.
pub fn get_main_worktree_root(output: &CommandOutput) -> (r: Result<String, GitError>)
    ensures
        !output.success ==> (r matches Err(GitError::CommandFailed { action: a, stderr: e })
            && a == GitAction::ListWorktrees && e@ == output.stderr@),
        output.success && listed_worktrees(output.stdout@).len() > 0 ==> (r matches Ok(p) && p@
            == listed_worktrees(output.stdout@)[0].path),
        output.success && listed_worktrees(output.stdout@).len() == 0 ==> r matches Err(
            GitError::NoMainWorktree,
        ),
{
    let worktrees = list_worktrees(output)?;
    proof {
        lemma_listed_worktrees_main_first(output.stdout@);
        assert forall|i: int| 0 <= i < worktrees.len() implies (#[trigger] worktrees[i]).is_main
            == (i == 0) by {
            assert(worktrees_view(worktrees@)[i] == worktrees[i]@);
        }
    }
    match find_main_worktree(&worktrees) {
        Some(main) => {
            assert(worktrees_view(worktrees@)[0] == worktrees[0]@);
            Ok(main.path.clone())
        },
        None => {
            if worktrees.len() > 0 {
                assert(worktrees[0].is_main);
            }
            Err(GitError::NoMainWorktree)
        },
    }
}

// ----------------------------------------------------------------------
// Commands that change worktrees and branches
// ----------------------------------------------------------------------

pub open spec fn strings_view(v: Seq<String>) -> Seq<Seq<char>> {
    Seq::new(v.len(), |i: int| v[i]@)
}

/// The arguments of `git worktree add <path> <branch>`.
pub fn create_worktree_args(path: &str, branch: &str) -> (r: Vec<String>)
    ensures
        strings_view(r@) =~= seq!["worktree"@, "add"@, path@, branch@],
{
    let mut r: Vec<String> = Vec::new();
    r.push("worktree".to_owned());
    r.push("add".to_owned());
    r.push(path.to_owned());
    r.push(branch.to_owned());
    r
}

/// The arguments of `git worktree add -b <new_branch> <path> <start_point>`.
pub fn create_worktree_new_branch_args(path: &str, new_branch: &str, start_point: &str) -> (r:
    Vec<String>)
    ensures
        strings_view(r@) =~= seq![
            "worktree"@,
            "add"@,
            "-b"@,
            new_branch@,
            path@,
            start_point@,
        ],
{
    let mut r: Vec<String> = Vec::new();
    r.push("worktree".to_owned());
    r.push("add".to_owned());
    r.push("-b".to_owned());
    r.push(new_branch.to_owned());
    r.push(path.to_owned());
    r.push(start_point.to_owned());
    r
}

/// The arguments of `git worktree remove <path>`, with `--force` if asked.
pub fn remove_worktree_args(path: &str, force: bool) -> (r: Vec<String>)
    ensures
        force ==> strings_view(r@) =~= seq!["worktree"@, "remove"@, path@, "--force"@],
        !force ==> strings_view(r@) =~= seq!["worktree"@, "remove"@, path@],
{
    let mut r: Vec<String> = Vec::new();
    r.push("worktree".to_owned());
    r.push("remove".to_owned());
    r.push(path.to_owned());
    if force {
        r.push("--force".to_owned());
    }
    r
}

/// The arguments of `git branch -d <branch>`, or `-D` when forced.
pub fn delete_branch_args(branch: &str, force: bool) -> (r: Vec<String>)
    ensures
        force ==> strings_view(r@) =~= seq!["branch"@, "-D"@, branch@],
        !force ==> strings_view(r@) =~= seq!["branch"@, "-d"@, branch@],
{
    let flag = if force {
        "-D"
    } else {
        "-d"
    };
    let mut r: Vec<String> = Vec::new();
    r.push("branch".to_owned());
    r.push(flag.to_owned());
    r.push(branch.to_owned());
    r
}

// ----------------------------------------------------------------------
// Changes in a worktree
// ----------------------------------------------------------------------

/// Whether a worktree has uncommitted changes, from the output of
/// `git status --porcelain` run in it: whether that output holds anything
/// but whitespace.
pub fn worktree_has_changes(output: &CommandOutput) -> (r: Result<bool, GitError>)
    ensures
        output.success ==> (r matches Ok(b) && b == (trim(output.stdout@).len() > 0)),
        !output.success ==> (r matches Err(GitError::CommandFailed { action: a, stderr: e })
            && a == GitAction::CheckStatus && e@ == output.stderr@),
{
    if !output.success {
        return Err(
            GitError::CommandFailed { action: GitAction::CheckStatus, stderr: output.stderr.clone() },
        );
    }
    let s = chars_of(output.stdout.as_str());
    let (a, b) = trim_bounds(&s, 0, s.len());
    assert(s@.subrange(0, s.len() as int) =~= s@);
    Ok(a < b)
}

/// The patch of all changes of a worktree: the unstaged diff, then the
/// staged diff, with a line break between them when both are present.
pub open spec fn combined_diff(unstaged: Seq<char>, staged: Seq<char>) -> Seq<char> {
    if staged.len() == 0 {
        unstaged
    } else if unstaged.len() == 0 {
        staged
    } else {
        unstaged + seq!['\n'] + staged
    }
}

/// The patch of the changes of a worktree, from the outputs of `git diff`
/// (unstaged) and `git diff --cached` (staged).
pub fn get_worktree_diff(unstaged: &str, staged: &str) -> (r: String)
    ensures
        r@ == combined_diff(unstaged@, staged@),
{
    let u = chars_of(unstaged);
    let st = chars_of(staged);
    let mut diff: Vec<char> = Vec::new();
    if u.len() > 0 {
        diff = concat_chars(&diff, &u);
    }
    if st.len() > 0 {
        if diff.len() > 0 {
            diff.push('\n');
        }
        diff = concat_chars(&diff, &st);
    }
    assert(diff@ =~= combined_diff(unstaged@, staged@));
    string_from_chars(&diff)
}

/// The names given by the lines of a listing: each line with surrounding
/// whitespace removed, empty ones skipped.
pub open spec fn listed_names(ls: Seq<Seq<char>>) -> Seq<Seq<char>>
    decreases ls.len(),
{
    if ls.len() == 0 {
        Seq::empty()
    } else {
        let n = trim(ls[0]);
        let rest = listed_names(ls.drop_first());
        if n.len() > 0 {
            seq![n] + rest
        } else {
            rest
        }
    }
}

/// The names of a listing are its lines, each with surrounding whitespace
/// removed, in order, with only the blank ones left out.
pub proof fn lemma_listed_names_are_nonblank_lines(ls: Seq<Seq<char>>)
    ensures
        listed_names(ls) =~= ls.map_values(|l: Seq<char>| trim(l)).filter(
            |n: Seq<char>| n.len() > 0,
        ),
    decreases ls.len(),
{
    let f = |l: Seq<char>| trim(l);
    let p = |n: Seq<char>| n.len() > 0;
    if ls.len() == 0 {
        assert(ls.map_values(f) =~= Seq::<Seq<char>>::empty());
    } else {
        lemma_listed_names_are_nonblank_lines(ls.drop_first());
        let rest = ls.drop_first().map_values(f);
        assert(ls.map_values(f) =~= seq![trim(ls[0])] + rest);
        rest.lemma_filter_prepend(trim(ls[0]), p);
    }
}

/// Every blank-free line of an untracked-files listing gives a name, and
/// every name comes from one: the names are exactly the trimmed lines that
/// are not empty.
pub proof fn lemma_listed_names_members(ls: Seq<Seq<char>>)
    ensures
        forall|i: int|
            0 <= i < ls.len() && trim(ls[i]).len() > 0 ==> listed_names(ls).contains(
                #[trigger] trim(ls[i]),
            ),
        forall|n: Seq<char>|
            #[trigger] listed_names(ls).contains(n) ==> n.len() > 0 && exists|i: int|
                0 <= i < ls.len() && trim(ls[i]) == n,
    decreases ls.len(),
{
    if ls.len() > 0 {
        lemma_listed_names_members(ls.drop_first());
        let rest = listed_names(ls.drop_first());
        assert forall|i: int| 0 <= i < ls.len() && trim(ls[i]).len() > 0 implies listed_names(
            ls,
        ).contains(#[trigger] trim(ls[i])) by {
            if i == 0 {
                assert(listed_names(ls)[0] == trim(ls[0]));
            } else {
                assert(ls[i] == ls.drop_first()[i - 1]);
                assert(rest.contains(trim(ls[i])));
                let j = choose|j: int| 0 <= j < rest.len() && rest[j] == trim(ls[i]);
                if trim(ls[0]).len() > 0 {
                    assert(listed_names(ls)[j + 1] == rest[j]);
                }
            }
        }
        assert forall|n: Seq<char>| #[trigger] listed_names(ls).contains(n) implies n.len() > 0
            && exists|i: int| 0 <= i < ls.len() && trim(ls[i]) == n by {
            let j = choose|j: int| 0 <= j < listed_names(ls).len() && listed_names(ls)[j] == n;
            if trim(ls[0]).len() > 0 && j == 0 {
                assert(trim(ls[0]) == n);
            } else {
                let k = if trim(ls[0]).len() > 0 {
                    j - 1
                } else {
                    j
                };
                assert(rest[k] == n);
                assert(rest.contains(n));
                let i = choose|i: int|
                    0 <= i < ls.drop_first().len() && trim(ls.drop_first()[i]) == n;
                assert(ls[i + 1] == ls.drop_first()[i]);
            }
        }
    }
}

/// A file to copy: from where, to where, and the directory that has to
/// exist for it.
#[derive(Debug, Clone)]
pub struct FileCopy {
    pub source: String,
    pub dest: String,
    pub dest_dir: Option<String>,
}

/// The copies that bring the untracked files listed by
/// `git ls-files --others --exclude-standard` (run in `source_path`) into
/// `current_dir`: each listed file, joined to both directories.
pub fn untracked_file_copies(
    st: PathStyle,
    ls_files: &str,
    source_path: &str,
    current_dir: &str,
) -> (r: Vec<
    FileCopy,
>)
    ensures
        r.len() == listed_names(lines(ls_files@)).len(),
        forall|i: int|
            0 <= i < r.len() ==> {
                let f = listed_names(lines(ls_files@))[i];
                &&& (#[trigger] r[i]).source@ == push(st, source_path@, f)
                &&& r[i].dest@ == push(st, current_dir@, f)
                &&& match spec_parent(st, push(st, current_dir@, f)) {
                    Some(d) => r[i].dest_dir matches Some(v) && v@ == d,
                    None => r[i].dest_dir is None,
                }
            },
{
    let s = chars_of(ls_files);
    let src = chars_of(source_path);
    let cur = chars_of(current_dir);
    let n = s.len();
    let mut r: Vec<FileCopy> = Vec::new();
    let mut pos: usize = 0;
    let ghost all = listed_names(lines(s@));
    assert(s@.subrange(0, n as int) =~= s@);
    while pos < n
        invariant
            n == s.len(),
            pos <= n,
            src@ == source_path@,
            cur@ == current_dir@,
            all == listed_names(lines(s@)),
            s@ == ls_files@,
            r.len() <= all.len(),
            all.subrange(r.len() as int, all.len() as int) =~= listed_names(
                lines(s@.subrange(pos as int, n as int)),
            ),
            forall|i: int|
                0 <= i < r.len() ==> {
                    let f = all[i];
                    &&& (#[trigger] r[i]).source@ == push(st, source_path@, f)
                    &&& r[i].dest@ == push(st, current_dir@, f)
                    &&& match spec_parent(st, push(st, current_dir@, f)) {
                        Some(d) => r[i].dest_dir matches Some(v) && v@ == d,
                        None => r[i].dest_dir is None,
                    }
                },
        decreases n - pos,
    {
        let (a, b, next) = next_line(&s, pos);
        let ghost ls = lines(s@.subrange(pos as int, n as int));
        assert(ls.drop_first() =~= lines(s@.subrange(next as int, n as int)));
        let (ta, tb) = trim_bounds(&s, a, b);
        assert(ls[0] =~= s@.subrange(a as int, b as int));
        if ta < tb {
            let file = sub_chars(&s, ta, tb);
            assert(listed_names(ls) =~= seq![file@] + listed_names(ls.drop_first()));
            assert(all.subrange(r.len() as int, all.len() as int)[0] == file@);
            let source = push_path(st, &src, &file);
            let dest = push_path(st, &cur, &file);
            let dest_dir = match parent(st, &dest) {
                Some(d) => Some(string_from_chars(&d)),
                None => None,
            };
            let ghost k = r.len() as int;
            assert(all[k] == file@);
            r.push(
                FileCopy {
                    source: string_from_chars(&source),
                    dest: string_from_chars(&dest),
                    dest_dir,
                },
            );
            assert(all.subrange(r.len() as int, all.len() as int) =~= all.subrange(
                k,
                all.len() as int,
            ).drop_first());
        }
        pos = next;
    }
    assert(s@.subrange(n as int, n as int) =~= Seq::<char>::empty());
    r
}

/// `path` without a leading Windows extended-length prefix `\\?\`.
pub fn strip_unc_prefix(path: &str) -> (r: String)
    ensures
        r@ == spec_strip_unc_prefix(path@),
{
    let p = chars_of(path);
    let r = strip_unc_prefix_chars(&p);
    string_from_chars(&r)
}

} // verus!
