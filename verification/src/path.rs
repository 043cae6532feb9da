//! Paths as text, read the way `std::path` reads them on Unix or on
//! Windows: their components, parent and file name, joining, prefix tests,
//! and the Windows extended-length prefix.
//!
//! On Unix the separator is `/`; on Windows both `/` and `\` separate, `\`
//! is the one written, and a path may begin with a prefix: a drive such as
//! `C:`, or a UNC share `\\server\share`, which always has a root.
//! Components follow `std::path::Path::components`: the prefix, then the
//! root, then `.` if the path begins with it, then the pieces between
//! separators, with empty and `.` pieces dropped and `..` kept. A component
//! is given by its text (the root by the separator that is written). Two
//! components are equal when their texts are, except that two drive
//! prefixes are equal when their letters are, whatever the case, and two
//! UNC prefixes when their server and share names are.
//!
//! The Windows prefixes `\\?\` (verbatim) and `\\.\` (device) are not
//! read as such here: the tool takes `\\?\` off the paths it resolves
//! before it reads them, and neither comes from git.
use vstd::prelude::*;

use crate::text::{chars_eq, has_prefix, sub_chars, concat_chars};

verus! {

/// The rules a path is read by: those of Unix or those of Windows.
#[derive(Debug, Clone, Copy, PartialEq, Eq, Structural)]
pub enum PathStyle {
    Unix,
    Windows,
}

/// `c` separates components.
pub open spec fn is_sep(st: PathStyle, c: char) -> bool {
    c == '/' || (st == PathStyle::Windows && c == '\\')
}

/// The separator written between components.
pub open spec fn main_sep(st: PathStyle) -> char {
    if st == PathStyle::Windows {
        '\\'
    } else {
        '/'
    }
}

pub open spec fn is_ascii_letter(c: char) -> bool {
    ('a' <= c && c <= 'z') || ('A' <= c && c <= 'Z')
}

/// On Windows, `p` begins with a drive letter and `:`.
pub open spec fn is_drive_start(st: PathStyle, p: Seq<char>) -> bool {
    st == PathStyle::Windows && p.len() >= 2 && is_ascii_letter(p[0]) && p[1] == ':'
}

/// Where the server name of a UNC prefix `\\server\share` ends: the
/// first separator after the two leading ones.
pub open spec fn unc_server_end(st: PathStyle, p: Seq<char>) -> int {
    2 + sep_index(st, p.subrange(2, p.len() as int))
}

/// On Windows, the length of the UNC prefix `\\server\share` that `p`
/// begins with (either separator may stand in it), both names not empty;
/// 0 if it has none.
pub open spec fn unc_len(st: PathStyle, p: Seq<char>) -> int {
    if st == PathStyle::Windows && p.len() >= 2 && is_sep(st, p[0]) && is_sep(st, p[1]) {
        let s1 = unc_server_end(st, p);
        if 2 < s1 < p.len() {
            let s2 = s1 + 1 + sep_index(st, p.subrange(s1 + 1, p.len() as int));
            if s2 > s1 + 1 {
                s2
            } else {
                0
            }
        } else {
            0
        }
    } else {
        0
    }
}

/// The length of the prefix that `p` begins with: on Windows a drive (`C:`)
/// or a UNC share (`\\server\share`); 0 if it has none.
pub open spec fn prefix_len(st: PathStyle, p: Seq<char>) -> int {
    if is_drive_start(st, p) {
        2
    } else {
        unc_len(st, p)
    }
}

/// A separator follows the prefix.
pub open spec fn physical_root(st: PathStyle, p: Seq<char>) -> bool {
    prefix_len(st, p) < p.len() && is_sep(st, p[prefix_len(st, p)])
}

/// The path has a root: a separator follows the prefix, or the prefix is a
/// UNC share, which always has one.
pub open spec fn has_root(st: PathStyle, p: Seq<char>) -> bool {
    physical_root(st, p) || unc_len(st, p) > 0
}

/// The path does not depend on a current directory: it has a root, and on
/// Windows a prefix as well (`Path::is_absolute`).
pub open spec fn is_absolute(st: PathStyle, p: Seq<char>) -> bool {
    has_root(st, p) && (st == PathStyle::Unix || prefix_len(st, p) > 0)
}

/// After its prefix, a path without a root begins with the component `.`.
pub open spec fn starts_with_cur_dir(st: PathStyle, p: Seq<char>) -> bool {
    let k = prefix_len(st, p);
    !has_root(st, p) && p.len() > k && p[k] == '.' && (p.len() == k + 1 || is_sep(st, p[k + 1]))
}

/// Where the pieces between separators begin: after the prefix, the
/// separator that follows it, and a leading `.`.
pub open spec fn body_start(st: PathStyle, p: Seq<char>) -> int {
    prefix_len(st, p) + (if physical_root(st, p) {
        1int
    } else {
        0int
    }) + (if starts_with_cur_dir(st, p) {
        1int
    } else {
        0int
    })
}

/// Where the first separator of `s` is (`s.len()` if it has none).
pub open spec fn sep_index(st: PathStyle, s: Seq<char>) -> int
    decreases s.len(),
{
    if s.len() == 0 {
        0
    } else if is_sep(st, s[0]) {
        0
    } else {
        1 + sep_index(st, s.drop_first())
    }
}

pub proof fn lemma_sep_index_bounds(st: PathStyle, s: Seq<char>)
    ensures
        0 <= sep_index(st, s) <= s.len(),
        sep_index(st, s) < s.len() ==> is_sep(st, s[sep_index(st, s)]),
        forall|j: int| 0 <= j < sep_index(st, s) ==> !is_sep(st, s[j]),
    decreases s.len(),
{
    if s.len() > 0 && !is_sep(st, s[0]) {
        lemma_sep_index_bounds(st, s.drop_first());
        assert forall|j: int| 0 <= j < sep_index(st, s) implies !is_sep(st, s[j]) by {
            if j > 0 {
                assert(s[j] == s.drop_first()[j - 1]);
            }
        }
    }
}

pub proof fn lemma_sep_index_at(st: PathStyle, s: Seq<char>, k: int)
    requires
        0 <= k <= s.len(),
        forall|j: int| 0 <= j < k ==> !is_sep(st, s[j]),
        k == s.len() || is_sep(st, s[k]),
    ensures
        sep_index(st, s) == k,
    decreases k,
{
    if k > 0 {
        lemma_sep_index_at(st, s.drop_first(), k - 1);
    }
}

/// A piece between separators that stands as a component: not empty and
/// not `.`.
pub open spec fn keeps_piece(piece: Seq<char>) -> bool {
    piece.len() > 0 && !(piece =~= seq!['.'])
}

/// The pieces of `p` between separators that stand as components.
pub open spec fn body_components(st: PathStyle, p: Seq<char>) -> Seq<Seq<char>>
    decreases p.len(),
{
    if p.len() == 0 {
        Seq::empty()
    } else {
        let i = sep_index(st, p);
        proof {
            lemma_sep_index_bounds(st, p);
        }
        let piece = p.subrange(0, i);
        let rest = if i < p.len() {
            body_components(st, p.subrange(i + 1, p.len() as int))
        } else {
            Seq::empty()
        };
        if keeps_piece(piece) {
            seq![piece] + rest
        } else {
            rest
        }
    }
}

/// The components of `p` after its prefix, root and leading `.`.
pub open spec fn body(st: PathStyle, p: Seq<char>) -> Seq<Seq<char>> {
    body_components(st, p.subrange(prefix_len(st, p), p.len() as int))
}

/// The text of the root component.
pub open spec fn root_text(st: PathStyle) -> Seq<char> {
    seq![main_sep(st)]
}

pub open spec fn parent_dir_text() -> Seq<char> {
    seq!['.', '.']
}

/// The components before the body: the prefix, the root, a leading `.`.
pub open spec fn head(st: PathStyle, p: Seq<char>) -> Seq<Seq<char>> {
    (if prefix_len(st, p) > 0 {
        seq![p.subrange(0, prefix_len(st, p))]
    } else {
        Seq::empty()
    }) + (if has_root(st, p) {
        seq![root_text(st)]
    } else {
        Seq::empty()
    }) + (if starts_with_cur_dir(st, p) {
        seq![seq!['.']]
    } else {
        Seq::empty()
    })
}

/// The components of `p` (`Path::components`).
pub open spec fn components(st: PathStyle, p: Seq<char>) -> Seq<Seq<char>> {
    head(st, p) + body(st, p)
}

/// A two-character drive prefix such as `C:`.
pub open spec fn is_drive(c: Seq<char>) -> bool {
    c.len() == 2 && is_ascii_letter(c[0]) && c[1] == ':'
}

/// A drive letter as compared: lower case taken as upper case.
pub open spec fn drive_key(c: char) -> int {
    if 'a' <= c && c <= 'z' {
        c as int - 32
    } else {
        c as int
    }
}

/// The server and share names of a UNC prefix text.
pub open spec fn unc_names(st: PathStyle, c: Seq<char>) -> (Seq<char>, Seq<char>) {
    (
        c.subrange(2, unc_server_end(st, c)),
        c.subrange(unc_server_end(st, c) + 1, c.len() as int),
    )
}

/// `c` is the text of a UNC prefix.
pub open spec fn is_unc_text(st: PathStyle, c: Seq<char>) -> bool {
    c.len() > 0 && unc_len(st, c) == c.len()
}

/// Components `a` and `b`, both at position `i`, are equal: their texts
/// are, or on Windows they are both the prefix: drive prefixes with the
/// same letter whatever its case, or UNC prefixes with the same server and
/// share names whatever the separators.
pub open spec fn same_comp(st: PathStyle, i: int, a: Seq<char>, b: Seq<char>) -> bool {
    if st == PathStyle::Windows && i == 0 && is_drive(a) && is_drive(b) {
        drive_key(a[0]) == drive_key(b[0])
    } else if st == PathStyle::Windows && i == 0 && is_unc_text(st, a) && is_unc_text(st, b) {
        unc_names(st, a) == unc_names(st, b)
    } else {
        a == b
    }
}

/// The first `n` components of `a` and `b` are equal.
pub open spec fn same_comps(st: PathStyle, a: Seq<Seq<char>>, b: Seq<Seq<char>>, n: int) -> bool {
    n <= a.len() && n <= b.len() && forall|i: int| 0 <= i < n ==> #[trigger] same_comp(st, i, a[i], b[i])
}

/// `a` and `b` have equal components (`Path`'s `==`).
pub open spec fn same_path(st: PathStyle, a: Seq<char>, b: Seq<char>) -> bool {
    components(st, a).len() == components(st, b).len() && same_comps(
        st,
        components(st, a),
        components(st, b),
        components(st, a).len() as int,
    )
}

/// `p` begins, component by component, with `base` (`Path::starts_with`).
pub open spec fn path_starts_with(st: PathStyle, p: Seq<char>, base: Seq<char>) -> bool {
    same_comps(st, components(st, p), components(st, base), components(st, base).len() as int)
}

/// `q` appended to `p` as `PathBuf::push` does: `q` replaces `p` if it is
/// absolute or has a prefix; a `q` with a root but no prefix keeps only the
/// prefix of `p`; otherwise a separator goes between them unless `p` is
/// empty, ends with one, or is a bare drive prefix such as `C:`.
pub open spec fn push(st: PathStyle, p: Seq<char>, q: Seq<char>) -> Seq<char> {
    if is_absolute(st, q) || prefix_len(st, q) > 0 {
        q
    } else if has_root(st, q) {
        p.subrange(0, prefix_len(st, p)) + q
    } else if p.len() > 0 && !is_sep(st, p.last()) && !(is_drive_start(st, p) && p.len() == 2) {
        p + seq![main_sep(st)] + q
    } else {
        p + q
    }
}

/// Each of `cs` pushed onto `p` in turn.
pub open spec fn push_all(st: PathStyle, p: Seq<char>, cs: Seq<Seq<char>>) -> Seq<char>
    decreases cs.len(),
{
    if cs.len() == 0 {
        p
    } else {
        push_all(st, push(st, p, cs[0]), cs.drop_first())
    }
}

/// The last component of `p`, if it is a name (`Path::file_name`).
pub open spec fn spec_file_name(st: PathStyle, p: Seq<char>) -> Option<Seq<char>> {
    let b = body(st, p);
    if b.len() > 0 && !(b.last() =~= parent_dir_text()) {
        Some(b.last())
    } else {
        None
    }
}

/// Where the last piece of `p[lo..hi]` begins: just after its last
/// separator, or at `lo` if it has none.
pub open spec fn piece_start(st: PathStyle, p: Seq<char>, lo: int, hi: int) -> int
    decreases hi - lo,
{
    if hi <= lo {
        lo
    } else if is_sep(st, p[hi - 1]) {
        hi
    } else {
        piece_start(st, p, lo, hi - 1)
    }
}

pub proof fn lemma_piece_start_bounds(st: PathStyle, p: Seq<char>, lo: int, hi: int)
    requires
        lo <= hi,
    ensures
        lo <= piece_start(st, p, lo, hi) <= hi,
        piece_start(st, p, lo, hi) > lo ==> is_sep(st, p[piece_start(st, p, lo, hi) - 1]),
        forall|j: int| piece_start(st, p, lo, hi) <= j < hi ==> !is_sep(st, #[trigger] p[j]),
    decreases hi - lo,
{
    if hi > lo && !is_sep(st, p[hi - 1]) {
        lemma_piece_start_bounds(st, p, lo, hi - 1);
    }
}

/// Where `p[lo..hi]` ends once its last piece, and the separator before
/// it, are taken off.
pub open spec fn cut_end(st: PathStyle, p: Seq<char>, lo: int, hi: int) -> int {
    if piece_start(st, p, lo, hi) > lo {
        piece_start(st, p, lo, hi) - 1
    } else {
        lo
    }
}

/// Where `p[lo..hi]` ends once trailing pieces that are empty or `.` are
/// taken off.
pub open spec fn trim_back(st: PathStyle, p: Seq<char>, lo: int, hi: int) -> int
    decreases hi - lo,
{
    if hi <= lo {
        hi
    } else if keeps_piece(p.subrange(piece_start(st, p, lo, hi), hi)) {
        hi
    } else {
        proof {
            lemma_piece_start_bounds(st, p, lo, hi);
        }
        trim_back(st, p, lo, cut_end(st, p, lo, hi))
    }
}

/// `p` without its last component, spelled as in `p` (`Path::parent`):
/// the last piece that is a component, and what follows it, are taken off,
/// then trailing separators and `.` pieces. A path whose only component
/// after its prefix is a leading `.` gives its prefix; one whose last
/// component is its root or prefix, or that is empty, has none.
pub open spec fn spec_parent(st: PathStyle, p: Seq<char>) -> Option<Seq<char>> {
    let lo = body_start(st, p);
    let e = trim_back(st, p, lo, p.len() as int);
    if e > lo {
        Some(p.subrange(0, trim_back(st, p, lo, cut_end(st, p, lo, e))))
    } else if starts_with_cur_dir(st, p) {
        Some(p.subrange(0, prefix_len(st, p)))
    } else {
        None
    }
}

/// The Windows extended-length prefix `\\?\`.
pub open spec fn unc_prefix() -> Seq<char> {
    seq!['\\', '\\', '?', '\\']
}

/// `p` without a leading `\\?\`.
pub open spec fn spec_strip_unc_prefix(p: Seq<char>) -> Seq<char> {
    if has_prefix(p, unc_prefix()) {
        p.subrange(4, p.len() as int)
    } else {
        p
    }
}

pub open spec fn view_all(v: Seq<Vec<char>>) -> Seq<Seq<char>> {
    Seq::new(v.len(), |i: int| v[i]@)
}

// ----------------------------------------------------------------------
// Reading a path
// ----------------------------------------------------------------------

fn is_sep_char(st: PathStyle, c: char) -> (r: bool)
    ensures
        r == is_sep(st, c),
{
    c == '/' || (st == PathStyle::Windows && c == '\\')
}

fn main_sep_char(st: PathStyle) -> (r: char)
    ensures
        r == main_sep(st),
{
    match st {
        PathStyle::Windows => '\\',
        PathStyle::Unix => '/',
    }
}

fn prefix_length(st: PathStyle, p: &Vec<char>) -> (r: usize)
    ensures
        r == prefix_len(st, p@),
        r <= p.len(),
{
    if st == PathStyle::Windows && p.len() >= 2 && (('a' <= p[0] && p[0] <= 'z') || ('A' <= p[0]
        && p[0] <= 'Z')) && p[1] == ':' {
        return 2;
    }
    if st == PathStyle::Windows && p.len() >= 2 && is_sep_char(st, p[0]) && is_sep_char(st, p[1]) {
        let s1 = find_sep(st, p, 2);
        if 2 < s1 && s1 < p.len() {
            let s2 = find_sep(st, p, s1 + 1);
            if s2 > s1 + 1 {
                return s2;
            }
        }
    }
    0
}

/// Whether `p` has a root (`k` is the length of its prefix).
fn root_at(st: PathStyle, p: &Vec<char>, k: usize) -> (r: bool)
    requires
        k == prefix_len(st, p@),
    ensures
        r == has_root(st, p@),
{
    let unc = k > 0 && is_sep_char(st, p[0]);
    assert(unc == (unc_len(st, p@) > 0));
    (k < p.len() && is_sep_char(st, p[k])) || unc
}

/// Whether a separator follows the prefix of `p` (`k` is its length).
fn physical_root_at(st: PathStyle, p: &Vec<char>, k: usize) -> (r: bool)
    requires
        k == prefix_len(st, p@),
    ensures
        r == physical_root(st, p@),
{
    k < p.len() && is_sep_char(st, p[k])
}

fn cur_dir_at(st: PathStyle, p: &Vec<char>, k: usize, root: bool) -> (r: bool)
    requires
        k == prefix_len(st, p@),
        root == has_root(st, p@),
    ensures
        r == starts_with_cur_dir(st, p@),
{
    !root && p.len() > k && p[k] == '.' && (p.len() == k + 1 || is_sep_char(st, p[k + 1]))
}

/// The position of the first separator of `p[from..]`.
fn find_sep(st: PathStyle, p: &Vec<char>, from: usize) -> (r: usize)
    requires
        from <= p.len(),
    ensures
        from <= r <= p.len(),
        r - from == sep_index(st, p@.subrange(from as int, p.len() as int)),
{
    let mut i = from;
    while i < p.len() && !is_sep_char(st, p[i])
        invariant
            from <= i <= p.len(),
            forall|j: int| from <= j < i ==> !is_sep(st, p@[j]),
        decreases p.len() - i,
    {
        i = i + 1;
    }
    let ghost t = p@.subrange(from as int, p.len() as int);
    proof {
        assert forall|j: int| 0 <= j < i - from implies !is_sep(st, t[j]) by {
            assert(t[j] == p@[from + j]);
        }
        if i < p.len() {
            assert(t[i - from] == p@[i as int]);
        }
        lemma_sep_index_at(st, t, i - from);
    }
    i
}

/// The components of `p[from..]` that stand between separators.
fn body_of(st: PathStyle, p: &Vec<char>, from: usize) -> (r: Vec<Vec<char>>)
    requires
        from <= p.len(),
    ensures
        view_all(r@) =~= body_components(st, p@.subrange(from as int, p.len() as int)),
{
    let n = p.len();
    let mut r: Vec<Vec<char>> = Vec::new();
    let mut pos: usize = from;
    let mut done = false;
    while !done && pos < n
        invariant
            n == p.len(),
            from <= pos <= n,
            body_components(st, p@.subrange(from as int, n as int)) =~= view_all(r@) + (if done {
                Seq::empty()
            } else {
                body_components(st, p@.subrange(pos as int, n as int))
            }),
        decreases n - pos,
    {
        let ghost t = p@.subrange(pos as int, n as int);
        let i = find_sep(st, p, pos);
        let ghost before = view_all(r@);
        let piece = sub_chars(p, pos, i);
        proof {
            assert(t.subrange(0, i - pos) =~= piece@);
            if i < n {
                assert(t.subrange(i - pos + 1, t.len() as int) =~= p@.subrange(i + 1, n as int));
            }
        }
        if piece.len() > 0 && !(piece.len() == 1 && piece[0] == '.') {
            assert(keeps_piece(piece@));
            r.push(piece);
            assert(view_all(r@) =~= before + seq![piece@]);
        } else {
            assert(!keeps_piece(piece@));
        }
        if i < n {
            pos = i + 1;
        } else {
            done = true;
            pos = n;
        }
    }
    if !done {
        assert(p@.subrange(pos as int, n as int) =~= Seq::<char>::empty());
    }
    r
}

/// The components of `p` after its prefix, root and leading `.`.
pub fn path_body(st: PathStyle, p: &Vec<char>) -> (r: Vec<Vec<char>>)
    ensures
        view_all(r@) =~= body(st, p@),
{
    let k = prefix_length(st, p);
    body_of(st, p, k)
}

/// The components of `p`.
pub fn path_components(st: PathStyle, p: &Vec<char>) -> (r: Vec<Vec<char>>)
    ensures
        view_all(r@) =~= components(st, p@),
{
    let k = prefix_length(st, p);
    let root = root_at(st, p, k);
    let cur = cur_dir_at(st, p, k, root);
    let mut r: Vec<Vec<char>> = Vec::new();
    if k > 0 {
        r.push(sub_chars(p, 0, k));
    }
    if root {
        let ghost before = view_all(r@);
        let mut v: Vec<char> = Vec::new();
        v.push(main_sep_char(st));
        assert(v@ =~= root_text(st));
        r.push(v);
        assert(view_all(r@) =~= before + seq![root_text(st)]);
    }
    if cur {
        let ghost before = view_all(r@);
        let mut v: Vec<char> = Vec::new();
        v.push('.');
        assert(v@ =~= seq!['.']);
        r.push(v);
        assert(view_all(r@) =~= before + seq![seq!['.']]);
    }
    assert(view_all(r@) =~= head(st, p@));
    let b = body_of(st, p, k);
    let ghost hv = view_all(r@);
    let mut i: usize = 0;
    while i < b.len()
        invariant
            i <= b.len(),
            view_all(r@) =~= hv + view_all(b@).subrange(0, i as int),
        decreases b.len() - i,
    {
        let ghost before = view_all(r@);
        r.push(sub_chars(&b[i], 0, b[i].len()));
        assert(b@[i as int]@.subrange(0, b@[i as int].len() as int) =~= b@[i as int]@);
        assert(view_all(r@) =~= before.push(view_all(b@)[i as int]));
        i = i + 1;
    }
    assert(view_all(b@).subrange(0, b.len() as int) =~= view_all(b@));
    r
}

// ----------------------------------------------------------------------
// Joining, parent, file name
// ----------------------------------------------------------------------

fn copy_chars(q: &Vec<char>) -> (r: Vec<char>)
    ensures
        r@ == q@,
{
    assert(q@.subrange(0, q.len() as int) =~= q@);
    sub_chars(q, 0, q.len())
}

/// `q` appended to `p` (`PathBuf::push`).
pub fn push_path(st: PathStyle, p: &Vec<char>, q: &Vec<char>) -> (r: Vec<char>)
    ensures
        r@ == push(st, p@, q@),
{
    let kq = prefix_length(st, q);
    let q_root = root_at(st, q, kq);
    let kp = prefix_length(st, p);
    if (q_root && (st == PathStyle::Unix || kq > 0)) || kq > 0 {
        copy_chars(q)
    } else if q_root {
        let front = sub_chars(p, 0, kp);
        concat_chars(&front, q)
    } else if p.len() > 0 && !is_sep_char(st, p[p.len() - 1]) && !(kp == 2 && p.len() == 2
        && p[1] == ':') {
        let sep = vec![main_sep_char(st)];
        let a = concat_chars(p, &sep);
        concat_chars(&a, q)
    } else {
        concat_chars(p, q)
    }
}

/// Each of `cs[from..]` pushed onto `p` in turn.
pub fn push_all_path(st: PathStyle, p: &Vec<char>, cs: &Vec<Vec<char>>, from: usize) -> (r: Vec<
    char,
>)
    requires
        from <= cs.len(),
    ensures
        r@ == push_all(st, p@, view_all(cs@).subrange(from as int, cs.len() as int)),
{
    let mut acc = copy_chars(p);
    let mut i = from;
    while i < cs.len()
        invariant
            from <= i <= cs.len(),
            push_all(st, p@, view_all(cs@).subrange(from as int, cs.len() as int)) == push_all(
                st,
                acc@,
                view_all(cs@).subrange(i as int, cs.len() as int),
            ),
        decreases cs.len() - i,
    {
        let ghost rest = view_all(cs@).subrange(i as int, cs.len() as int);
        assert(rest.drop_first() =~= view_all(cs@).subrange(i + 1, cs.len() as int));
        acc = push_path(st, &acc, &cs[i]);
        i = i + 1;
    }
    acc
}

/// The last component of `p`, if it is a name (`Path::file_name`).
pub fn file_name(st: PathStyle, p: &Vec<char>) -> (r: Option<Vec<char>>)
    ensures
        match spec_file_name(st, p@) {
            Some(n) => r matches Some(v) && v@ == n,
            None => r is None,
        },
{
    let b = path_body(st, p);
    if b.len() == 0 {
        return None;
    }
    let last = &b[b.len() - 1];
    assert(view_all(b@).last() == last@);
    if last.len() == 2 && last[0] == '.' && last[1] == '.' {
        assert(last@ =~= parent_dir_text());
        None
    } else {
        assert(!(last@ =~= parent_dir_text()));
        Some(copy_chars(last))
    }
}

/// Where the last piece of `p[lo..hi]` begins.
fn piece_start_of(st: PathStyle, p: &Vec<char>, lo: usize, hi: usize) -> (r: usize)
    requires
        lo <= hi <= p.len(),
    ensures
        r == piece_start(st, p@, lo as int, hi as int),
{
    let mut j = hi;
    while j > lo && !is_sep_char(st, p[j - 1])
        invariant
            lo <= j <= hi <= p.len(),
            piece_start(st, p@, lo as int, hi as int) == piece_start(st, p@, lo as int, j as int),
        decreases j,
    {
        j = j - 1;
    }
    j
}

/// Where `p[lo..hi]` ends once trailing empty and `.` pieces are taken off.
fn trim_back_of(st: PathStyle, p: &Vec<char>, lo: usize, hi: usize) -> (r: usize)
    requires
        lo <= hi <= p.len(),
    ensures
        r == trim_back(st, p@, lo as int, hi as int),
        lo <= r <= hi,
{
    let mut e = hi;
    loop
        invariant
            lo <= e <= hi <= p.len(),
            trim_back(st, p@, lo as int, hi as int) == trim_back(st, p@, lo as int, e as int),
        decreases e,
    {
        if e <= lo {
            return e;
        }
        let s = piece_start_of(st, p, lo, e);
        proof {
            lemma_piece_start_bounds(st, p@, lo as int, e as int);
        }
        let piece_len = e - s;
        let keep = piece_len > 0 && !(piece_len == 1 && p[s] == '.');
        assert(keep == keeps_piece(p@.subrange(s as int, e as int))) by {
            if piece_len == 1 {
                assert(p@.subrange(s as int, e as int)[0] == p@[s as int]);
            }
        }
        if keep {
            return e;
        }
        e = if s > lo {
            s - 1
        } else {
            lo
        };
    }
}

/// `p` without its last component (`Path::parent`), spelled as in `p`.
pub fn parent(st: PathStyle, p: &Vec<char>) -> (r: Option<Vec<char>>)
    ensures
        match spec_parent(st, p@) {
            Some(q) => r matches Some(v) && v@ == q,
            None => r is None,
        },
{
    let k = prefix_length(st, p);
    let root = root_at(st, p, k);
    let cur = cur_dir_at(st, p, k, root);
    let physical = physical_root_at(st, p, k);
    let lo = k + (if physical {
        1usize
    } else {
        0usize
    }) + (if cur {
        1usize
    } else {
        0usize
    });
    assert(lo == body_start(st, p@));
    let e = trim_back_of(st, p, lo, p.len());
    if e > lo {
        let s = piece_start_of(st, p, lo, e);
        proof {
            lemma_piece_start_bounds(st, p@, lo as int, e as int);
        }
        let c = if s > lo {
            s - 1
        } else {
            lo
        };
        let t = trim_back_of(st, p, lo, c);
        Some(sub_chars(p, 0, t))
    } else if cur {
        Some(sub_chars(p, 0, k))
    } else {
        None
    }
}

/// The file name of the path `p`, if it has one (`Path::file_name`).
pub fn file_name_of(st: PathStyle, p: &str) -> (r: Option<String>)
    ensures
        match spec_file_name(st, p@) {
            Some(n) => r matches Some(v) && v@ == n,
            None => r is None,
        },
{
    let c = crate::text::chars_of(p);
    match file_name(st, &c) {
        Some(n) => Some(crate::text::string_from_chars(&n)),
        None => None,
    }
}

// ----------------------------------------------------------------------
// Comparing paths
// ----------------------------------------------------------------------

fn drive_key_of(c: char) -> (r: u32)
    ensures
        r == drive_key(c),
{
    let x = c as u32;
    if 'a' <= c && c <= 'z' {
        x - 32
    } else {
        x
    }
}

fn is_drive_text(c: &Vec<char>) -> (r: bool)
    ensures
        r == is_drive(c@),
{
    c.len() == 2 && (('a' <= c[0] && c[0] <= 'z') || ('A' <= c[0] && c[0] <= 'Z')) && c[1] == ':'
}

fn is_unc_component(st: PathStyle, c: &Vec<char>) -> (r: bool)
    ensures
        r == is_unc_text(st, c@),
{
    let k = prefix_length(st, c);
    let r = c.len() > 0 && k == c.len() && is_sep_char(st, c[0]);
    assert(r == is_unc_text(st, c@));
    r
}

/// Whether components `a` and `b`, both at position `i`, are equal.
pub fn same_component(st: PathStyle, i: usize, a: &Vec<char>, b: &Vec<char>) -> (r: bool)
    ensures
        r == same_comp(st, i as int, a@, b@),
{
    if st == PathStyle::Windows && i == 0 && is_drive_text(a) && is_drive_text(b) {
        drive_key_of(a[0]) == drive_key_of(b[0])
    } else if st == PathStyle::Windows && i == 0 && is_unc_component(st, a) && is_unc_component(
        st,
        b,
    ) {
        let sa = find_sep(st, a, 2);
        let sb = find_sep(st, b, 2);
        let a1 = sub_chars(a, 2, sa);
        let b1 = sub_chars(b, 2, sb);
        let a2 = sub_chars(a, sa + 1, a.len());
        let b2 = sub_chars(b, sb + 1, b.len());
        let r = chars_eq(&a1, &b1) && chars_eq(&a2, &b2);
        assert(unc_names(st, a@) == (a1@, a2@));
        assert(unc_names(st, b@) == (b1@, b2@));
        r
    } else {
        chars_eq(a, b)
    }
}

/// Whether the first `n` components of `a` and `b` are equal.
fn same_components(st: PathStyle, a: &Vec<Vec<char>>, b: &Vec<Vec<char>>, n: usize) -> (r: bool)
    requires
        n <= a.len(),
        n <= b.len(),
    ensures
        r == same_comps(st, view_all(a@), view_all(b@), n as int),
{
    let mut i: usize = 0;
    while i < n
        invariant
            n <= a.len(),
            n <= b.len(),
            i <= n,
            forall|j: int| 0 <= j < i ==> #[trigger] same_comp(st, j, a@[j]@, b@[j]@),
        decreases n - i,
    {
        if !same_component(st, i, &a[i], &b[i]) {
            assert(!same_comp(st, i as int, view_all(a@)[i as int], view_all(b@)[i as int]));
            return false;
        }
        i = i + 1;
    }
    assert forall|j: int| 0 <= j < n implies #[trigger] same_comp(
        st,
        j,
        view_all(a@)[j],
        view_all(b@)[j],
    ) by {
        assert(same_comp(st, j, a@[j]@, b@[j]@));
    }
    true
}

/// Whether `p` begins, component by component, with `base`.
pub fn starts_with_path(st: PathStyle, p: &Vec<char>, base: &Vec<char>) -> (r: bool)
    ensures
        r == path_starts_with(st, p@, base@),
{
    let a = path_components(st, p);
    let b = path_components(st, base);
    if b.len() > a.len() {
        return false;
    }
    same_components(st, &a, &b, b.len())
}

/// Whether `a` and `b` have equal components.
pub fn same_path_chars(st: PathStyle, a: &Vec<char>, b: &Vec<char>) -> (r: bool)
    ensures
        r == same_path(st, a@, b@),
{
    let x = path_components(st, a);
    let y = path_components(st, b);
    if x.len() != y.len() {
        return false;
    }
    same_components(st, &x, &y, x.len())
}

/// `p` without a leading `\\?\`.
pub fn strip_unc_prefix_chars(p: &Vec<char>) -> (r: Vec<char>)
    ensures
        r@ == spec_strip_unc_prefix(p@),
{
    if p.len() >= 4 && p[0] == '\\' && p[1] == '\\' && p[2] == '?' && p[3] == '\\' {
        assert(p@.subrange(0, 4) =~= unc_prefix());
        sub_chars(p, 4, p.len())
    } else {
        if p.len() >= 4 {
            assert(p@.subrange(0, 4)[0] == p@[0] && p@.subrange(0, 4)[1] == p@[1]);
            assert(p@.subrange(0, 4)[2] == p@[2] && p@.subrange(0, 4)[3] == p@[3]);
        }
        copy_chars(p)
    }
}

// ----------------------------------------------------------------------
// Joining pieces
// ----------------------------------------------------------------------

/// A piece that stands as one component on its own: not empty, not `.`,
/// without a separator, and not a drive prefix.
pub open spec fn is_piece(st: PathStyle, q: Seq<char>) -> bool {
    keeps_piece(q) && sep_index(st, q) == q.len() && prefix_len(st, q) == 0
}

proof fn lemma_sep_index_concat(st: PathStyle, x: Seq<char>, y: Seq<char>)
    ensures
        sep_index(st, x) < x.len() ==> sep_index(st, x + y) == sep_index(st, x),
        sep_index(st, x) == x.len() ==> sep_index(st, x + y) == x.len() + sep_index(st, y),
{
    lemma_sep_index_bounds(st, x);
    lemma_sep_index_bounds(st, y);
    let i = sep_index(st, x);
    if i < x.len() {
        assert((x + y)[i] == x[i]);
        assert forall|j: int| 0 <= j < i implies !is_sep(st, (x + y)[j]) by {
            assert((x + y)[j] == x[j]);
        }
        lemma_sep_index_at(st, x + y, i);
    } else {
        let j = sep_index(st, y);
        assert forall|k: int| 0 <= k < x.len() + j implies !is_sep(st, (x + y)[k]) by {
            if k >= x.len() {
                assert((x + y)[k] == y[k - x.len()]);
            } else {
                assert((x + y)[k] == x[k]);
            }
        }
        if j < y.len() {
            assert((x + y)[x.len() + j] == y[j]);
        }
        lemma_sep_index_at(st, x + y, x.len() + j);
    }
}

/// The pieces of `x`, a separator, then `y` are those of `x` followed by
/// those of `y`.
proof fn lemma_body_components_concat(st: PathStyle, x: Seq<char>, c: char, y: Seq<char>)
    requires
        is_sep(st, c),
    ensures
        body_components(st, x + seq![c] + y) =~= body_components(st, x) + body_components(st, y),
    decreases x.len(),
{
    let s = x + seq![c] + y;
    lemma_sep_index_bounds(st, x);
    lemma_sep_index_concat(st, x, seq![c] + y);
    assert(s =~= x + (seq![c] + y));
    let i = sep_index(st, x);
    if i == x.len() {
        lemma_sep_index_at(st, seq![c] + y, 0);
        assert(sep_index(st, s) == x.len());
        assert(s.subrange(0, x.len() as int) =~= x);
        assert(s.subrange(x.len() + 1 as int, s.len() as int) =~= y);
        if x.len() > 0 {
            assert(x.subrange(0, i) =~= x);
        } else {
            assert(!keeps_piece(s.subrange(0, 0)));
        }
    } else {
        assert(sep_index(st, s) == i);
        assert(s.subrange(0, i) =~= x.subrange(0, i));
        let xr = x.subrange(i + 1, x.len() as int);
        assert(s.subrange(i + 1, s.len() as int) =~= xr + seq![c] + y);
        lemma_body_components_concat(st, xr, c, y);
    }
}

/// A trailing separator adds no piece.
proof fn lemma_body_components_trailing(st: PathStyle, x: Seq<char>, c: char)
    requires
        is_sep(st, c),
    ensures
        body_components(st, x + seq![c]) =~= body_components(st, x),
{
    lemma_body_components_concat(st, x, c, Seq::empty());
    assert(x + seq![c] + Seq::<char>::empty() =~= x + seq![c]);
}

proof fn lemma_body_components_piece(st: PathStyle, q: Seq<char>)
    requires
        is_piece(st, q),
    ensures
        body_components(st, q) =~= seq![q],
{
    assert(q.subrange(0, q.len() as int) =~= q);
}

/// On Windows, the path begins with two separators without forming a UNC
/// prefix (such as `\\server`): pushing a name onto it can turn it into one.
pub open spec fn bare_double_sep(st: PathStyle, p: Seq<char>) -> bool {
    st == PathStyle::Windows && p.len() >= 2 && is_sep(st, p[0]) && is_sep(st, p[1]) && unc_len(
        st,
        p,
    ) == 0
}

/// A UNC prefix lies within the path, after two separators, and a
/// separator, or the end of the path, follows it.
pub proof fn lemma_unc_len_bounds(st: PathStyle, p: Seq<char>)
    ensures
        0 <= unc_len(st, p) <= p.len(),
        0 <= prefix_len(st, p) <= p.len(),
        unc_len(st, p) > 0 ==> is_sep(st, p[0]) && is_sep(st, p[1]) && 2 < unc_server_end(st, p)
            < unc_len(st, p),
        unc_len(st, p) > 0 && unc_len(st, p) < p.len() ==> is_sep(st, p[unc_len(st, p)]),
        unc_len(st, p) > 0 && unc_len(st, p) == p.len() ==> !is_sep(st, p.last()),
{
    if st == PathStyle::Windows && p.len() >= 2 && is_sep(st, p[0]) && is_sep(st, p[1]) {
        lemma_sep_index_bounds(st, p.subrange(2, p.len() as int));
        let s1 = unc_server_end(st, p);
        if 2 < s1 < p.len() {
            let u = p.subrange(s1 + 1, p.len() as int);
            lemma_sep_index_bounds(st, u);
            let s2 = s1 + 1 + sep_index(st, u);
            if s2 > s1 + 1 && s2 < p.len() {
                assert(p[s2] == u[s2 - s1 - 1]);
            }
            if s2 > s1 + 1 && s2 == p.len() {
                assert(p.last() == u[u.len() - 1]);
            }
        }
    }
}

/// Text after a UNC prefix leaves it as it is, as long as a separator ends
/// the share name.
proof fn lemma_unc_len_extend(st: PathStyle, p: Seq<char>, t: Seq<char>)
    requires
        unc_len(st, p) > 0,
        unc_len(st, p) < p.len() || (t.len() > 0 && is_sep(st, t[0])),
    ensures
        unc_len(st, p + t) == unc_len(st, p),
{
    let r = p + t;
    assert(r[0] == p[0] && r[1] == p[1]);
    let s1 = unc_server_end(st, p);
    lemma_sep_index_bounds(st, p.subrange(2, p.len() as int));
    assert(r.subrange(2, r.len() as int) =~= p.subrange(2, p.len() as int) + t);
    lemma_sep_index_concat(st, p.subrange(2, p.len() as int), t);
    assert(unc_server_end(st, r) == s1);
    let u = p.subrange(s1 + 1, p.len() as int);
    assert(r.subrange(s1 + 1, r.len() as int) =~= u + t);
    lemma_sep_index_bounds(st, u);
    lemma_sep_index_concat(st, u, t);
    if unc_len(st, p) == p.len() {
        lemma_sep_index_at(st, t, 0);
    }
}

/// What `lemma_push_piece` states, for one path and piece.
pub open spec fn push_piece_adds(st: PathStyle, p: Seq<char>, q: Seq<char>) -> bool {
    &&& head(st, push(st, p, q)) =~= head(st, p)
    &&& body(st, push(st, p, q)) =~= body(st, p).push(q)
    &&& components(st, push(st, p, q)) =~= components(st, p).push(q)
    &&& !bare_double_sep(st, push(st, p, q))
    &&& is_absolute(st, push(st, p, q)) == is_absolute(st, p)
}

proof fn lemma_piece_facts(st: PathStyle, q: Seq<char>)
    requires
        is_piece(st, q),
    ensures
        !is_sep(st, q[0]),
        q.len() > 1 ==> !is_sep(st, q[1]),
        !(q.len() == 1 && q[0] == '.'),
        unc_len(st, q) == 0,
        !has_root(st, q),
        !is_absolute(st, q),
        body_components(st, q) =~= seq![q],
{
    lemma_sep_index_bounds(st, q);
    lemma_body_components_piece(st, q);
    if q.len() == 1 && q[0] == '.' {
        assert(q =~= seq!['.']);
    }
}

proof fn lemma_push_piece_onto_empty(st: PathStyle, p: Seq<char>, q: Seq<char>)
    requires
        is_piece(st, q),
        p.len() == 0,
    ensures
        push_piece_adds(st, p, q),
{
    lemma_piece_facts(st, q);
    assert(push(st, p, q) =~= q);
    assert(!starts_with_cur_dir(st, q));
    assert(q.subrange(0, q.len() as int) =~= q);
    assert(p.subrange(0, 0) =~= Seq::<char>::empty());
}

proof fn lemma_push_piece_with_sep(st: PathStyle, p: Seq<char>, q: Seq<char>)
    requires
        is_piece(st, q),
        !bare_double_sep(st, p),
        p.len() > 0,
        !is_sep(st, p.last()),
        !(is_drive_start(st, p) && p.len() == 2),
    ensures
        push_piece_adds(st, p, q),
{
    lemma_piece_facts(st, q);
    lemma_unc_len_bounds(st, p);
    let r = push(st, p, q);
    let k = prefix_len(st, p);
    let c = main_sep(st);
    assert(r =~= p + seq![c] + q);
    if unc_len(st, p) > 0 {
        assert(p + seq![c] + q =~= p + (seq![c] + q));
        lemma_unc_len_extend(st, p, seq![c] + q);
    }
    assert(r[0] == p[0]);
    if p.len() > 1 {
        assert(r[1] == p[1]);
    } else {
        assert(r[1] == c);
    }
    assert(prefix_len(st, r) == k);
    if k < p.len() {
        assert(r[k] == p[k]);
    } else {
        assert(r[k] == c);
    }
    if p.len() > k + 1 {
        assert(r[k + 1] == p[k + 1]);
    } else if p.len() == k + 1 {
        assert(r[k + 1] == c);
    }
    assert(r.subrange(0, k) =~= p.subrange(0, k));
    assert(r.subrange(k, r.len() as int) =~= p.subrange(k, p.len() as int) + seq![c] + q);
    lemma_body_components_concat(st, p.subrange(k, p.len() as int), c, q);
}

proof fn lemma_push_piece_onto_drive(st: PathStyle, p: Seq<char>, q: Seq<char>)
    requires
        is_piece(st, q),
        is_drive_start(st, p) && p.len() == 2,
    ensures
        push_piece_adds(st, p, q),
{
    lemma_piece_facts(st, q);
    let r = push(st, p, q);
    assert(r =~= p + q);
    assert(r[0] == p[0] && r[1] == p[1]);
    assert(prefix_len(st, r) == 2);
    assert(r[2] == q[0]);
    if q.len() > 1 {
        assert(r[3] == q[1]);
    }
    assert(r.subrange(0, 2) =~= p.subrange(0, 2));
    assert(r.subrange(2, r.len() as int) =~= q);
    assert(p.subrange(2, p.len() as int) =~= Seq::<char>::empty());
}

proof fn lemma_push_piece_after_sep(st: PathStyle, p: Seq<char>, q: Seq<char>)
    requires
        is_piece(st, q),
        !bare_double_sep(st, p),
        p.len() > 0,
        is_sep(st, p.last()),
    ensures
        push_piece_adds(st, p, q),
{
    lemma_piece_facts(st, q);
    lemma_unc_len_bounds(st, p);
    let r = push(st, p, q);
    let k = prefix_len(st, p);
    let c = p.last();
    let x = p.drop_last();
    assert(r =~= p + q);
    assert(p =~= x + seq![c]);
    if is_drive_start(st, p) {
        assert(p.len() > 2);
    }
    if unc_len(st, p) > 0 {
        lemma_unc_len_extend(st, p, q);
    }
    assert(r[0] == p[0]);
    if p.len() > 1 {
        assert(r[1] == p[1]);
    } else {
        assert(r[1] == q[0]);
    }
    assert(prefix_len(st, r) == k);
    assert(r[k] == p[k]);
    if p.len() > k + 1 {
        assert(r[k + 1] == p[k + 1]);
    }
    assert(r.subrange(0, k) =~= p.subrange(0, k));
    let xb = x.subrange(k, x.len() as int);
    assert(r.subrange(k, r.len() as int) =~= xb + seq![c] + q);
    assert(p.subrange(k, p.len() as int) =~= xb + seq![c]);
    lemma_body_components_concat(st, xb, c, q);
    lemma_body_components_trailing(st, xb, c);
}

/// Pushing a single piece onto a path adds exactly that component, after
/// the ones it had (unless the path is two separators and a server name,
/// which the piece would turn into a UNC prefix).
pub proof fn lemma_push_piece(st: PathStyle, p: Seq<char>, q: Seq<char>)
    requires
        is_piece(st, q),
        !bare_double_sep(st, p),
    ensures
        head(st, push(st, p, q)) =~= head(st, p),
        body(st, push(st, p, q)) =~= body(st, p).push(q),
        components(st, push(st, p, q)) =~= components(st, p).push(q),
        !bare_double_sep(st, push(st, p, q)),
        is_absolute(st, push(st, p, q)) == is_absolute(st, p),
{
    if p.len() == 0 {
        lemma_push_piece_onto_empty(st, p, q);
    } else if is_drive_start(st, p) && p.len() == 2 {
        lemma_push_piece_onto_drive(st, p, q);
    } else if is_sep(st, p.last()) {
        lemma_push_piece_after_sep(st, p, q);
    } else {
        lemma_push_piece_with_sep(st, p, q);
    }
}

/// Pushing pieces one by one adds exactly those components.
pub proof fn lemma_push_all_pieces(st: PathStyle, p: Seq<char>, cs: Seq<Seq<char>>)
    requires
        forall|i: int| 0 <= i < cs.len() ==> is_piece(st, #[trigger] cs[i]),
        !bare_double_sep(st, p),
    ensures
        components(st, push_all(st, p, cs)) =~= components(st, p) + cs,
        body(st, push_all(st, p, cs)) =~= body(st, p) + cs,
        is_absolute(st, push_all(st, p, cs)) == is_absolute(st, p),
    decreases cs.len(),
{
    if cs.len() > 0 {
        lemma_push_piece(st, p, cs[0]);
        assert forall|i: int| 0 <= i < cs.drop_first().len() implies is_piece(
            st,
            #[trigger] cs.drop_first()[i],
        ) by {
            assert(cs.drop_first()[i] == cs[i + 1]);
        }
        lemma_push_all_pieces(st, push(st, p, cs[0]), cs.drop_first());
        assert(components(st, p).push(cs[0]) + cs.drop_first() =~= components(st, p) + cs);
        assert(body(st, p).push(cs[0]) + cs.drop_first() =~= body(st, p) + cs);
    } else {
        assert(components(st, p) + cs =~= components(st, p));
        assert(body(st, p) + cs =~= body(st, p));
    }
}

/// Each piece of a path is not empty, not `.`, and has no separator.
pub proof fn lemma_body_components_are_pieces(st: PathStyle, p: Seq<char>)
    ensures
        forall|i: int|
            0 <= i < body_components(st, p).len() ==> keeps_piece(
                #[trigger] body_components(st, p)[i],
            ) && sep_index(st, body_components(st, p)[i]) == body_components(st, p)[i].len(),
    decreases p.len(),
{
    if p.len() > 0 {
        lemma_sep_index_bounds(st, p);
        let i = sep_index(st, p);
        let piece = p.subrange(0, i);
        assert forall|j: int| 0 <= j < i implies !is_sep(st, piece[j]) by {
            assert(piece[j] == p[j]);
        }
        lemma_sep_index_at(st, piece, i);
        if i < p.len() {
            lemma_body_components_are_pieces(st, p.subrange(i + 1, p.len() as int));
        }
        let rest = if i < p.len() {
            body_components(st, p.subrange(i + 1, p.len() as int))
        } else {
            Seq::empty()
        };
        if keeps_piece(piece) {
            assert forall|j: int| 0 < j < body_components(st, p).len() implies body_components(
                st,
                p,
            )[j] == rest[j - 1] by {}
        }
    }
}

/// The components of an absolute path: on Unix the root, on Windows the
/// drive prefix and the root; then the pieces of its body.
pub proof fn lemma_absolute_components(st: PathStyle, p: Seq<char>)
    requires
        is_absolute(st, p),
    ensures
        head(st, p) =~= (if st == PathStyle::Windows {
            seq![p.subrange(0, prefix_len(st, p)), root_text(st)]
        } else {
            seq![root_text(st)]
        }),
        forall|i: int|
            0 <= i < body(st, p).len() ==> keeps_piece(#[trigger] body(st, p)[i]) && sep_index(
                st,
                body(st, p)[i],
            ) == body(st, p)[i].len(),
{
    lemma_unc_len_bounds(st, p);
    lemma_body_components_are_pieces(st, p.subrange(prefix_len(st, p), p.len() as int));
    assert(!starts_with_cur_dir(st, p));
}

/// Whether `p` is absolute (`Path::is_absolute`).
pub fn is_absolute_path(st: PathStyle, p: &Vec<char>) -> (r: bool)
    ensures
        r == is_absolute(st, p@),
{
    let k = prefix_length(st, p);
    let root = root_at(st, p, k);
    root && (st == PathStyle::Unix || k > 0)
}

/// The path `.` has the one component `.`.
pub proof fn lemma_cur_dir_components(st: PathStyle)
    ensures
        components(st, seq!['.']) =~= seq![seq!['.']],
{
    let d = seq!['.'];
    lemma_sep_index_at(st, d, 1);
    assert(d.subrange(0, 1) =~= d);
    assert(d.subrange(0, d.len() as int) =~= d);
    assert(body_components(st, d) =~= Seq::<Seq<char>>::empty());
}

/// Pushing `a` and then `b` is pushing `a + b`.
pub proof fn lemma_push_all_concat(st: PathStyle, p: Seq<char>, a: Seq<Seq<char>>, b: Seq<Seq<char>>)
    ensures
        push_all(st, p, a + b) == push_all(st, push_all(st, p, a), b),
    decreases a.len(),
{
    if a.len() == 0 {
        assert(a + b =~= b);
    } else {
        assert((a + b).drop_first() =~= a.drop_first() + b);
        assert((a + b)[0] == a[0]);
        lemma_push_all_concat(st, push(st, p, a[0]), a.drop_first(), b);
    }
}

/// The prefix of an absolute Windows path, as text, is a prefix on its own:
/// pushed onto anything it replaces it, and the root pushed after it gives
/// a path whose components are that prefix and the root.
pub proof fn lemma_prefix_text(st: PathStyle, p: Seq<char>)
    requires
        st == PathStyle::Windows,
        is_absolute(st, p),
    ensures
        ({
            let q = p.subrange(0, prefix_len(st, p));
            let r = q + root_text(st);
            &&& prefix_len(st, q) == q.len() > 0
            &&& forall|x: Seq<char>| #[trigger] push(st, x, q) == q
            &&& push(st, q, root_text(st)) == r
            &&& components(st, r) =~= seq![q, root_text(st)]
            &&& !bare_double_sep(st, r)
            &&& is_absolute(st, r)
        }),
{
    lemma_unc_len_bounds(st, p);
    let k = prefix_len(st, p);
    let q = p.subrange(0, k);
    let rt = root_text(st);
    let r = q + rt;
    if is_drive_start(st, p) {
        assert(is_drive_start(st, q));
        assert(r[0] == q[0] && r[1] == q[1]);
        assert(is_drive_start(st, r));
    } else {
        let s1 = unc_server_end(st, p);
        let x = q.subrange(2, q.len() as int);
        let y = p.subrange(k, p.len() as int);
        assert(p.subrange(2, p.len() as int) =~= x + y);
        lemma_sep_index_bounds(st, x);
        lemma_sep_index_concat(st, x, y);
        lemma_sep_index_bounds(st, p.subrange(2, p.len() as int));
        assert(unc_server_end(st, q) == s1);
        let u = p.subrange(s1 + 1, p.len() as int);
        lemma_sep_index_bounds(st, u);
        let v = q.subrange(s1 + 1, q.len() as int);
        assert forall|j: int| 0 <= j < v.len() implies !is_sep(st, v[j]) by {
            assert(v[j] == u[j]);
        }
        lemma_sep_index_at(st, v, v.len() as int);
        assert(unc_len(st, q) == k);
        assert(!is_drive_start(st, q));
        lemma_unc_len_extend(st, q, rt);
        assert(!is_drive_start(st, r));
    }
    assert(prefix_len(st, q) == k);
    assert(prefix_len(st, r) == k);
    assert(r[k] == main_sep(st));
    assert(r.subrange(0, k) =~= q);
    assert(q.subrange(0, k) =~= q);
    // the root text has a root and no prefix
    assert(prefix_len(st, rt) == 0);
    assert(has_root(st, rt));
    assert(push(st, q, rt) =~= r);
    let t = r.subrange(k, r.len() as int);
    assert(t =~= seq![main_sep(st)]);
    lemma_sep_index_at(st, t, 0);
    assert(t.subrange(0, 0) =~= Seq::<char>::empty());
    assert(t.subrange(1, t.len() as int) =~= Seq::<char>::empty());
    assert(body_components(st, Seq::<char>::empty()) =~= Seq::<Seq<char>>::empty());
    assert(!keeps_piece(t.subrange(0, 0)));
    assert(sep_index(st, t) == 0);
    assert(body_components(st, t) =~= Seq::<Seq<char>>::empty());
    assert forall|x: Seq<char>| #[trigger] push(st, x, q) == q by {}
}

} // verus!
