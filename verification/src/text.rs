//! Character-level text handling: whitespace trimming, line splitting and
//! the small searches that the parsers of git's output need.
//!
//! Text is handled as sequences of `char`s; a `String` is turned into its
//! characters on the way in and rebuilt from characters on the way out.
use vstd::prelude::*;

verus! {

/// The Unicode `White_Space` property, which is what `char::is_whitespace`
/// and `str::trim` go by.
pub open spec fn is_ws(c: char) -> bool {
    let u = c as u32;
    ||| (0x09 <= u && u <= 0x0d)
    ||| u == 0x20
    ||| u == 0x85
    ||| u == 0xa0
    ||| u == 0x1680
    ||| (0x2000 <= u && u <= 0x200a)
    ||| u == 0x2028
    ||| u == 0x2029
    ||| u == 0x202f
    ||| u == 0x205f
    ||| u == 0x3000
}

/// `s` with its leading whitespace removed.
pub open spec fn trim_start(s: Seq<char>) -> Seq<char>
    decreases s.len(),
{
    if s.len() > 0 && is_ws(s[0]) {
        trim_start(s.drop_first())
    } else {
        s
    }
}

/// `s` with its trailing whitespace removed.
pub open spec fn trim_end(s: Seq<char>) -> Seq<char>
    decreases s.len(),
{
    if s.len() > 0 && is_ws(s.last()) {
        trim_end(s.drop_last())
    } else {
        s
    }
}

/// `s` with leading and trailing whitespace removed, as `str::trim` does.
pub open spec fn trim(s: Seq<char>) -> Seq<char> {
    trim_end(trim_start(s))
}

/// Index of the first occurrence of `c` in `s`, or `s.len()` if there is none.
pub open spec fn index_of_char(s: Seq<char>, c: char) -> int
    decreases s.len(),
{
    if s.len() == 0 {
        0
    } else if s[0] == c {
        0
    } else {
        1 + index_of_char(s.drop_first(), c)
    }
}

/// The first line of `s` without its line ending (`\n` or `\r\n`).
pub open spec fn first_line(s: Seq<char>) -> Seq<char> {
    let i = index_of_char(s, '\n');
    if i < s.len() {
        let l = s.subrange(0, i);
        if l.len() > 0 && l.last() == '\r' {
            l.drop_last()
        } else {
            l
        }
    } else {
        s
    }
}

/// What follows the first line ending of `s` (empty if `s` has none).
pub open spec fn after_first_line(s: Seq<char>) -> Seq<char> {
    let i = index_of_char(s, '\n');
    if i < s.len() {
        s.subrange(i + 1, s.len() as int)
    } else {
        Seq::empty()
    }
}

/// The lines of `s`, as `str::lines` gives them: split at `\n`, a `\r`
/// just before the `\n` dropped, and no empty last line for a final line
/// ending.
pub open spec fn lines(s: Seq<char>) -> Seq<Seq<char>>
    decreases s.len(),
{
    if s.len() == 0 {
        Seq::empty()
    } else {
        proof {
            lemma_index_of_char_bounds(s, '\n');
        }
        seq![first_line(s)] + lines(after_first_line(s))
    }
}

/// Where `c` first occurs in `x + y`, from where it first occurs in `x`
/// and in `y`.
pub proof fn lemma_index_of_char_concat(x: Seq<char>, y: Seq<char>, c: char)
    ensures
        index_of_char(x, c) < x.len() ==> index_of_char(x + y, c) == index_of_char(x, c),
        index_of_char(x, c) == x.len() ==> index_of_char(x + y, c) == x.len() + index_of_char(
            y,
            c,
        ),
{
    lemma_index_of_char_bounds(x, c);
    lemma_index_of_char_bounds(y, c);
    let i = index_of_char(x, c);
    if i < x.len() {
        assert((x + y)[i] == x[i]);
        lemma_index_of_char_at(x + y, c, i);
    } else {
        let j = index_of_char(y, c);
        assert forall|k: int| 0 <= k < x.len() + j implies (x + y)[k] != c by {
            if k >= x.len() {
                assert((x + y)[k] == y[k - x.len()]);
            }
        }
        if j < y.len() {
            assert((x + y)[x.len() + j] == y[j]);
        }
        lemma_index_of_char_at(x + y, c, x.len() + j);
    }
}

/// A line ending added at the end of `s` adds an empty last line when `s`
/// is empty or already ends with one; otherwise it ends the last line,
/// which then loses a carriage return it ends with, and changes nothing
/// else.
pub proof fn lemma_lines_push_newline(s: Seq<char>)
    ensures
        s.len() == 0 || s.last() == '\n' ==> lines(s.push('\n')) =~= lines(s).push(
            Seq::<char>::empty(),
        ),
        s.len() > 0 && s.last() != '\n' && s.last() != '\r' ==> lines(s.push('\n')) =~= lines(s),
        s.len() > 0 && s.last() == '\r' ==> lines(s).len() > 0 && lines(s).last().len() > 0
            && lines(s).last().last() == '\r' && lines(s.push('\n')) =~= lines(s).drop_last().push(
            lines(s).last().drop_last(),
        ),
    decreases s.len(),
{
    let t = s.push('\n');
    assert(t =~= s + seq!['\n']);
    lemma_index_of_char_bounds(s, '\n');
    lemma_index_of_char_concat(s, seq!['\n'], '\n');
    let i = index_of_char(s, '\n');
    if s.len() == 0 {
        assert(index_of_char(t, '\n') == 0);
        assert(first_line(t) =~= Seq::<char>::empty());
        assert(after_first_line(t) =~= Seq::<char>::empty());
        assert(lines(Seq::<char>::empty()) =~= Seq::<Seq<char>>::empty());
        assert(lines(t) =~= seq![first_line(t)] + lines(after_first_line(t)));
        assert(lines(t) =~= seq![Seq::<char>::empty()]);
    } else if i < s.len() {
        assert(index_of_char(t, '\n') == i);
        assert(t.subrange(0, i) =~= s.subrange(0, i));
        assert(first_line(t) =~= first_line(s));
        let u = s.subrange(i + 1, s.len() as int);
        assert(after_first_line(s) =~= u);
        assert(after_first_line(t) =~= u.push('\n'));
        if u.len() > 0 {
            assert(u.last() == s.last());
        } else {
            assert(s.last() == s[i]);
        }
        lemma_lines_push_newline(u);
        assert(lines(s) =~= seq![first_line(s)] + lines(u));
        assert(lines(t) =~= seq![first_line(s)] + lines(u.push('\n')));
        if s.last() == '\r' {
            assert(lines(s).last() == lines(u).last());
            assert(lines(s).drop_last() =~= seq![first_line(s)] + lines(u).drop_last());
        }
    } else {
        assert(index_of_char(t, '\n') == s.len());
        assert(t.subrange(0, s.len() as int) =~= s);
        assert(first_line(s) =~= s);
        assert(after_first_line(t) =~= Seq::<char>::empty());
        assert(after_first_line(s) =~= Seq::<char>::empty());
        assert(s.last() == s[s.len() - 1]);
        assert(lines(s) =~= seq![s]);
        if s.last() == '\r' {
            assert(first_line(t) =~= s.drop_last());
            assert(lines(t) =~= seq![s.drop_last()]);
        } else {
            assert(first_line(t) =~= s);
        }
    }
}

/// The lines of `x + y`, where `x` is empty or ends with a line ending, are
/// those of `x` followed by those of `y`.
pub proof fn lemma_lines_concat(x: Seq<char>, y: Seq<char>)
    requires
        x.len() == 0 || x.last() == '\n',
    ensures
        lines(x + y) =~= lines(x) + lines(y),
    decreases x.len(),
{
    if x.len() == 0 {
        assert(x + y =~= y);
        assert(lines(x) =~= Seq::<Seq<char>>::empty());
    } else {
        lemma_index_of_char_bounds(x, '\n');
        lemma_index_of_char_concat(x, y, '\n');
        let i = index_of_char(x, '\n');
        assert(i < x.len()) by {
            if i == x.len() {
                assert(x[x.len() - 1] != '\n');
            }
        }
        let u = x.subrange(i + 1, x.len() as int);
        assert((x + y).subrange(0, i) =~= x.subrange(0, i));
        assert((x + y).subrange(i + 1, (x + y).len() as int) =~= u + y);
        assert(first_line(x + y) =~= first_line(x));
        assert(after_first_line(x + y) =~= u + y);
        assert(after_first_line(x) =~= u);
        if u.len() > 0 {
            assert(u.last() == x.last());
        }
        lemma_lines_concat(u, y);
        assert(lines(x) =~= seq![first_line(x)] + lines(u));
        assert(lines(x + y) =~= seq![first_line(x)] + lines(u + y));
    }
}

/// A line without a line ending, followed by one, is read back as that
/// line (unless it ends in a carriage return, which the line ending would
/// take off).
pub proof fn lemma_lines_one_line(l: Seq<char>)
    requires
        index_of_char(l, '\n') == l.len(),
        !(l.len() > 0 && l.last() == '\r'),
    ensures
        lines(l.push('\n')) =~= seq![l],
{
    lemma_lines_push_newline(l);
    if l.len() > 0 {
        lemma_index_of_char_bounds(l, '\n');
        assert(l.last() == l[l.len() - 1]);
        assert(l.last() != '\n');
        assert(first_line(l) =~= l);
        assert(after_first_line(l) =~= Seq::<char>::empty());
        assert(lines(Seq::<char>::empty()) =~= Seq::<Seq<char>>::empty());
        assert(lines(l) =~= seq![first_line(l)] + lines(after_first_line(l)));
    } else {
        assert(lines(l) =~= Seq::<Seq<char>>::empty());
        assert(l =~= Seq::<char>::empty());
        assert(lines(l).push(Seq::<char>::empty()) =~= seq![l]);
    }
}

/// `s` begins with `p`.
pub open spec fn has_prefix(s: Seq<char>, p: Seq<char>) -> bool {
    p.len() <= s.len() && s.subrange(0, p.len() as int) =~= p
}

/// `s` ends with `p`.
pub open spec fn has_suffix(s: Seq<char>, p: Seq<char>) -> bool {
    p.len() <= s.len() && s.subrange(s.len() - p.len(), s.len() as int) =~= p
}

/// `p` occurs in `s` as a contiguous piece.
pub open spec fn has_infix(s: Seq<char>, p: Seq<char>) -> bool {
    exists|i: int| 0 <= i && i + p.len() <= s.len() && #[trigger] s.subrange(i, i + p.len()) =~= p
}

/// `s` with the prefix `p` removed if it begins with it, else `s` itself
/// (`str::strip_prefix(..).unwrap_or(..)`).
pub open spec fn strip_prefix_or_keep(s: Seq<char>, p: Seq<char>) -> Seq<char> {
    if has_prefix(s, p) {
        s.subrange(p.len() as int, s.len() as int)
    } else {
        s
    }
}

pub proof fn lemma_index_of_char_bounds(s: Seq<char>, c: char)
    ensures
        0 <= index_of_char(s, c) <= s.len(),
        index_of_char(s, c) < s.len() ==> s[index_of_char(s, c)] == c,
        forall|j: int| 0 <= j < index_of_char(s, c) ==> s[j] != c,
    decreases s.len(),
{
    if s.len() > 0 && s[0] != c {
        lemma_index_of_char_bounds(s.drop_first(), c);
        assert forall|j: int| 0 <= j < index_of_char(s, c) implies s[j] != c by {
            if j > 0 {
                assert(s[j] == s.drop_first()[j - 1]);
            }
        }
    }
}

/// The index of `c` is fixed by the characters before it.
pub proof fn lemma_index_of_char_at(s: Seq<char>, c: char, k: int)
    requires
        0 <= k <= s.len(),
        forall|j: int| 0 <= j < k ==> s[j] != c,
        k == s.len() || s[k] == c,
    ensures
        index_of_char(s, c) == k,
    decreases k,
{
    if k > 0 {
        lemma_index_of_char_at(s.drop_first(), c, k - 1);
    }
}

/// Trimming takes off exactly the whitespace around the text: where `a`
/// is the first character and `b - 1` the last that are not whitespace,
/// the result is `s[a..b]`.
pub proof fn lemma_trim_is_inner_text(s: Seq<char>, a: int, b: int)
    requires
        0 <= a < b <= s.len(),
        forall|j: int| 0 <= j < a ==> is_ws(#[trigger] s[j]),
        forall|j: int| b <= j < s.len() ==> is_ws(#[trigger] s[j]),
        !is_ws(s[a]),
        !is_ws(s[b - 1]),
    ensures
        trim(s) =~= s.subrange(a, b),
{
    lemma_trim_start_at(s, a);
    let t = s.subrange(a, s.len() as int);
    assert forall|j: int| b - a <= j < t.len() implies is_ws(#[trigger] t[j]) by {
        assert(t[j] == s[a + j]);
    }
    assert(t[b - a - 1] == s[b - 1]);
    lemma_trim_end_at(t, b - a);
    assert(t.subrange(0, b - a) =~= s.subrange(a, b));
}

/// Text that is all whitespace trims to nothing.
pub proof fn lemma_trim_of_blank(s: Seq<char>)
    requires
        forall|j: int| 0 <= j < s.len() ==> is_ws(#[trigger] s[j]),
    ensures
        trim(s).len() == 0,
{
    lemma_trim_start_at(s, s.len() as int);
    assert(s.subrange(s.len() as int, s.len() as int) =~= Seq::<char>::empty());
}

proof fn lemma_trim_start_at(s: Seq<char>, k: int)
    requires
        0 <= k <= s.len(),
        forall|j: int| 0 <= j < k ==> is_ws(#[trigger] s[j]),
        k == s.len() || !is_ws(s[k]),
    ensures
        trim_start(s) =~= s.subrange(k, s.len() as int),
    decreases k,
{
    if k > 0 {
        assert(is_ws(s[0]));
        lemma_trim_start_at(s.drop_first(), k - 1);
        assert(s.drop_first().subrange(k - 1, s.len() - 1) =~= s.subrange(k, s.len() as int));
    }
}

proof fn lemma_trim_end_at(s: Seq<char>, e: int)
    requires
        0 <= e <= s.len(),
        forall|j: int| e <= j < s.len() ==> is_ws(#[trigger] s[j]),
        e == 0 || !is_ws(s[e - 1]),
    ensures
        trim_end(s) =~= s.subrange(0, e),
    decreases s.len() - e,
{
    if e < s.len() {
        assert(is_ws(s.last()));
        lemma_trim_end_at(s.drop_last(), e);
        assert(s.drop_last().subrange(0, e) =~= s.subrange(0, e));
    } else {
        assert(s.subrange(0, e) =~= s);
    }
}

/// Whether `c` is whitespace (`char::is_whitespace`).
pub fn is_whitespace(c: char) -> (r: bool)
    ensures
        r == is_ws(c),
{
    let u = c as u32;
    (0x09 <= u && u <= 0x0d) || u == 0x20 || u == 0x85 || u == 0xa0 || u == 0x1680 || (0x2000
        <= u && u <= 0x200a) || u == 0x2028 || u == 0x2029 || u == 0x202f || u == 0x205f || u
        == 0x3000
}

/// The characters of `s`.
pub fn chars_of(s: &str) -> (r: Vec<char>)
    ensures
        r@ == s@,
{
    broadcast use vstd::string::group_string_axioms;

    let mut r: Vec<char> = Vec::new();
    for c in it: s.chars()
        invariant
            r@ == it.seq().take(it.index() as int),
            it.seq() == s@,
    {
        r.push(c);
        assert(r@ =~= it.seq().take(it.index() + 1));
    }
    assert(r@ =~= s@);
    r
}

/// The characters `s[from..to]` as a new vector.
pub fn sub_chars(s: &Vec<char>, from: usize, to: usize) -> (r: Vec<char>)
    requires
        from <= to <= s.len(),
    ensures
        r@ == s@.subrange(from as int, to as int),
{
    let mut r: Vec<char> = Vec::new();
    let mut i = from;
    while i < to
        invariant
            from <= i <= to <= s.len(),
            r@ =~= s@.subrange(from as int, i as int),
        decreases to - i,
    {
        r.push(s[i]);
        i = i + 1;
    }
    r
}

/// The bounds of `trim(s[from..to])` inside `s`.
pub fn trim_bounds(s: &Vec<char>, from: usize, to: usize) -> (r: (usize, usize))
    requires
        from <= to <= s.len(),
    ensures
        from <= r.0 <= r.1 <= to,
        s@.subrange(r.0 as int, r.1 as int) =~= trim(s@.subrange(from as int, to as int)),
{
    let mut a = from;
    while a < to && is_whitespace(s[a])
        invariant
            from <= a <= to <= s.len(),
            forall|j: int| from <= j < a ==> is_ws(#[trigger] s@[j]),
        decreases to - a,
    {
        a = a + 1;
    }
    let mut b = to;
    while b > a && is_whitespace(s[b - 1])
        invariant
            from <= a <= b <= to <= s.len(),
            forall|j: int| b <= j < to ==> is_ws(#[trigger] s@[j]),
        decreases b - a,
    {
        b = b - 1;
    }
    proof {
        let t = s@.subrange(from as int, to as int);
        lemma_trim_start_at(t, a - from);
        let u = s@.subrange(a as int, to as int);
        assert(t.subrange(a - from, t.len() as int) =~= u);
        lemma_trim_end_at(u, b - a);
        assert(u.subrange(0, b - a) =~= s@.subrange(a as int, b as int));
    }
    (a, b)
}

/// `trim(s)` as a new vector.
pub fn trimmed(s: &Vec<char>) -> (r: Vec<char>)
    ensures
        r@ == trim(s@),
{
    let (a, b) = trim_bounds(s, 0, s.len());
    assert(s@.subrange(0, s.len() as int) =~= s@);
    sub_chars(s, a, b)
}

/// Index of the first `c` in `s[from..]`, relative to the start of `s`,
/// or `s.len()`.
pub fn find_char(s: &Vec<char>, from: usize, c: char) -> (r: usize)
    requires
        from <= s.len(),
    ensures
        from <= r <= s.len(),
        r - from == index_of_char(s@.subrange(from as int, s.len() as int), c),
{
    let mut i = from;
    while i < s.len() && s[i] != c
        invariant
            from <= i <= s.len(),
            forall|j: int| from <= j < i ==> s@[j] != c,
        decreases s.len() - i,
    {
        i = i + 1;
    }
    proof {
        let t = s@.subrange(from as int, s.len() as int);
        lemma_index_of_char_at(t, c, i - from);
    }
    i
}

/// Splits off the first line of `s[from..]`: returns the bounds of that
/// line (without its line ending) and where the rest begins.
pub fn next_line(s: &Vec<char>, from: usize) -> (r: (usize, usize, usize))
    requires
        from < s.len(),
    ensures
        from == r.0 <= r.1 <= r.2 <= s.len(),
        from < r.2,
        s@.subrange(r.0 as int, r.1 as int) =~= first_line(s@.subrange(from as int, s.len() as int)),
        s@.subrange(r.2 as int, s.len() as int) =~= after_first_line(
            s@.subrange(from as int, s.len() as int),
        ),
        lines(s@.subrange(from as int, s.len() as int)) =~= seq![
            first_line(s@.subrange(from as int, s.len() as int)),
        ] + lines(s@.subrange(r.2 as int, s.len() as int)),
{
    let i = find_char(s, from, '\n');
    let ghost t = s@.subrange(from as int, s.len() as int);
    if i < s.len() {
        let end = if i > from && s[i - 1] == '\r' {
            i - 1
        } else {
            i
        };
        proof {
            assert(t.subrange(0, i - from) =~= s@.subrange(from as int, i as int));
            assert(t.subrange(i - from + 1, t.len() as int) =~= s@.subrange(
                i + 1,
                s.len() as int,
            ));
            if i > from && s@[i - 1] == '\r' {
                assert(s@.subrange(from as int, i as int).drop_last() =~= s@.subrange(
                    from as int,
                    end as int,
                ));
            }
        }
        (from, end, i + 1)
    } else {
        proof {
            assert(s@.subrange(s.len() as int, s.len() as int) =~= Seq::<char>::empty());
        }
        (from, s.len(), s.len())
    }
}

/// Whether `s[from..to]` equals `p`.
pub fn range_eq(s: &Vec<char>, from: usize, to: usize, p: &Vec<char>) -> (r: bool)
    requires
        from <= to <= s.len(),
    ensures
        r == (s@.subrange(from as int, to as int) =~= p@),
{
    if to - from != p.len() {
        return false;
    }
    let mut i: usize = 0;
    while i < p.len()
        invariant
            to - from == p.len(),
            from <= to <= s.len(),
            0 <= i <= p.len(),
            forall|j: int| 0 <= j < i ==> s@[from + j] == p@[j],
        decreases p.len() - i,
    {
        if s[from + i] != p[i] {
            assert(s@.subrange(from as int, to as int)[i as int] != p@[i as int]);
            return false;
        }
        i = i + 1;
    }
    true
}

/// Whether `s` begins with `p`.
pub fn starts_with(s: &Vec<char>, p: &Vec<char>) -> (r: bool)
    ensures
        r == has_prefix(s@, p@),
{
    if p.len() > s.len() {
        false
    } else {
        range_eq(s, 0, p.len(), p)
    }
}

/// Whether `s` ends with `p`.
pub fn ends_with(s: &Vec<char>, p: &Vec<char>) -> (r: bool)
    ensures
        r == has_suffix(s@, p@),
{
    if p.len() > s.len() {
        false
    } else {
        range_eq(s, s.len() - p.len(), s.len(), p)
    }
}

/// Whether `p` occurs in `s`.
pub fn contains_chars(s: &Vec<char>, p: &Vec<char>) -> (r: bool)
    ensures
        r == has_infix(s@, p@),
{
    if p.len() > s.len() {
        return false;
    }
    let mut i: usize = 0;
    while i <= s.len() - p.len()
        invariant
            p.len() <= s.len(),
            0 <= i <= s.len() - p.len() + 1,
            forall|j: int|
                0 <= j < i ==> !(#[trigger] s@.subrange(j, j + p.len()) =~= p@),
        decreases s.len() - i,
    {
        if range_eq(s, i, i + p.len(), p) {
            return true;
        }
        i = i + 1;
    }
    false
}

/// `s` without the prefix `p` if it has it, else a copy of `s`.
pub fn strip_prefix_chars(s: &Vec<char>, p: &Vec<char>) -> (r: Vec<char>)
    ensures
        r@ == strip_prefix_or_keep(s@, p@),
{
    if starts_with(s, p) {
        sub_chars(s, p.len(), s.len())
    } else {
        assert(s@.subrange(0, s.len() as int) =~= s@);
        sub_chars(s, 0, s.len())
    }
}

/// Whether `a` and `b` hold the same characters.
pub fn chars_eq(a: &Vec<char>, b: &Vec<char>) -> (r: bool)
    ensures
        r == (a@ == b@),
{
    let r = range_eq(a, 0, a.len(), b);
    assert(a@.subrange(0, a.len() as int) =~= a@);
    r
}

/// `a` followed by `b`.
pub fn concat_chars(a: &Vec<char>, b: &Vec<char>) -> (r: Vec<char>)
    ensures
        r@ == a@ + b@,
{
    let mut r = sub_chars(a, 0, a.len());
    let mut i: usize = 0;
    while i < b.len()
        invariant
            0 <= i <= b.len(),
            r@ =~= a@ + b@.subrange(0, i as int),
        decreases b.len() - i,
    {
        r.push(b[i]);
        i = i + 1;
    }
    r
}

/// Lexicographic order on characters by code point; this is the order of
/// `String`'s `Ord`, since UTF-8 keeps the order of code points.
pub open spec fn chars_lt(a: Seq<char>, b: Seq<char>) -> bool
    decreases a.len(),
{
    if a.len() == 0 {
        b.len() > 0
    } else if b.len() == 0 {
        false
    } else if a[0] != b[0] {
        (a[0] as u32) < (b[0] as u32)
    } else {
        chars_lt(a.drop_first(), b.drop_first())
    }
}

/// `chars_lt` is irreflexive and asymmetric.
pub proof fn lemma_chars_lt_asymmetric(a: Seq<char>, b: Seq<char>)
    ensures
        !(chars_lt(a, b) && chars_lt(b, a)),
        !chars_lt(a, a),
    decreases a.len(),
{
    if a.len() > 0 && b.len() > 0 && a[0] == b[0] {
        lemma_chars_lt_asymmetric(a.drop_first(), b.drop_first());
    }
    if a.len() > 0 {
        lemma_chars_lt_asymmetric(a.drop_first(), a.drop_first());
    }
}

/// `chars_lt` is transitive.
pub proof fn lemma_chars_lt_transitive(a: Seq<char>, b: Seq<char>, c: Seq<char>)
    requires
        chars_lt(a, b),
        chars_lt(b, c),
    ensures
        chars_lt(a, c),
    decreases a.len(),
{
    if a.len() > 0 && b.len() > 0 && c.len() > 0 && a[0] == b[0] && b[0] == c[0] {
        lemma_chars_lt_transitive(a.drop_first(), b.drop_first(), c.drop_first());
    }
}

/// Any two different sequences are ordered one way or the other.
pub proof fn lemma_chars_lt_total(a: Seq<char>, b: Seq<char>)
    ensures
        a =~= b || chars_lt(a, b) || chars_lt(b, a),
    decreases a.len(),
{
    if a.len() > 0 && b.len() > 0 && a[0] == b[0] {
        lemma_chars_lt_total(a.drop_first(), b.drop_first());
        if a.drop_first() =~= b.drop_first() {
            assert(a =~= seq![a[0]] + a.drop_first());
            assert(b =~= seq![b[0]] + b.drop_first());
        }
    } else if a.len() > 0 && b.len() > 0 {
        vstd::utf8::char_u32_cast(a[0], a[0] as u32);
        vstd::utf8::char_u32_cast(b[0], b[0] as u32);
    }
}

/// `chars_lt` is the lexicographic order by code point: where `a` and `b`
/// first differ, at `i`, the smaller character comes first.
pub proof fn lemma_chars_lt_first_difference(a: Seq<char>, b: Seq<char>, i: int)
    requires
        0 <= i < a.len(),
        i < b.len(),
        forall|j: int| 0 <= j < i ==> a[j] == b[j],
        a[i] != b[i],
    ensures
        chars_lt(a, b) == ((a[i] as u32) < (b[i] as u32)),
{
    lemma_chars_lt_skip(a, b, i);
    let x = a.subrange(i, a.len() as int);
    let y = b.subrange(i, b.len() as int);
    assert(x[0] == a[i] && y[0] == b[i]);
}

/// A proper prefix comes before the longer text.
pub proof fn lemma_chars_lt_proper_prefix(a: Seq<char>, b: Seq<char>)
    requires
        a.len() < b.len(),
        a =~= b.subrange(0, a.len() as int),
    ensures
        chars_lt(a, b),
{
    assert forall|j: int| 0 <= j < a.len() implies a[j] == b[j] by {
        assert(a[j] == b.subrange(0, a.len() as int)[j]);
    }
    lemma_chars_lt_skip(a, b, a.len() as int);
    assert(a.subrange(a.len() as int, a.len() as int) =~= Seq::<char>::empty());
}

proof fn lemma_chars_lt_skip(a: Seq<char>, b: Seq<char>, i: int)
    requires
        0 <= i <= a.len(),
        i <= b.len(),
        forall|j: int| 0 <= j < i ==> a[j] == b[j],
    ensures
        chars_lt(a, b) == chars_lt(
            a.subrange(i, a.len() as int),
            b.subrange(i, b.len() as int),
        ),
    decreases i,
{
    if i > 0 {
        lemma_chars_lt_skip(a.drop_first(), b.drop_first(), i - 1);
        assert(a.drop_first().subrange(i - 1, a.len() - 1) =~= a.subrange(i, a.len() as int));
        assert(b.drop_first().subrange(i - 1, b.len() - 1) =~= b.subrange(i, b.len() as int));
    } else {
        assert(a.subrange(0, a.len() as int) =~= a);
        assert(b.subrange(0, b.len() as int) =~= b);
    }
}

/// Whether `a` comes before `b` in the order of `chars_lt`.
pub fn chars_less(a: &Vec<char>, b: &Vec<char>) -> (r: bool)
    ensures
        r == chars_lt(a@, b@),
{
    let mut i: usize = 0;
    while i < a.len() && i < b.len() && a[i] == b[i]
        invariant
            0 <= i <= a.len(),
            i <= b.len(),
            forall|j: int| 0 <= j < i ==> a@[j] == b@[j],
        decreases a.len() - i,
    {
        i = i + 1;
    }
    proof {
        lemma_chars_lt_skip(a@, b@, i as int);
    }
    let ghost sa = a@.subrange(i as int, a.len() as int);
    let ghost sb = b@.subrange(i as int, b.len() as int);
    if i == a.len() {
        i < b.len()
    } else if i == b.len() {
        false
    } else {
        assert(sa[0] == a@[i as int] && sb[0] == b@[i as int]);
        (a[i] as u32) < (b[i] as u32)
    }
}

/// A `String` holding the characters of `v`, built by `String`'s
/// `FromIterator<&char>` (`Iterator::collect`). Trusted: the result is
/// claimed to hold exactly the characters of `v`, in order.
#[verifier::external_body]
pub(crate) fn string_from_chars(v: &Vec<char>) -> (r: String)
    ensures
        r@ == v@,
{
    v.iter().collect()
}

} // verus!
