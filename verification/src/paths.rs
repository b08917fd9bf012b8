//! Validation of path components and file names supplied by callers, and
//! the small path computations the data API needs. Paths use `/` as the
//! separator (Unix path syntax).

use vstd::prelude::*;
use vstd::string::StringExecFns;

use crate::error::{ApiError, ApiErrorCode};
use crate::text::{ascii_lower, chars_of, contains_char, push_char, slice_range, string_from_chars, to_ascii_lower};

verus! {

/// Two consecutive dots occur in `s`.
pub open spec fn has_dotdot(s: Seq<char>) -> bool {
    exists|i: int| 0 <= i && i + 1 < s.len() && #[trigger] s[i] == '.' && s[i + 1] == '.'
}

/// `s` is a single, non-traversing path component: non-empty, not `.`,
/// without separators (`/`, `\`), without `..` and without NUL.
pub open spec fn safe_component(s: Seq<char>) -> bool {
    &&& s.len() > 0
    &&& s != seq!['.']
    &&& !s.contains('/')
    &&& !s.contains('\\')
    &&& !has_dotdot(s)
    &&& !s.contains('\0')
}

pub(crate) fn contains_dotdot(s: &[char]) -> (r: bool)
    ensures
        r == has_dotdot(s@),
{
    let mut i: usize = 0;
    while i < s.len() && s.len() - i > 1
        invariant
            i <= s@.len(),
            forall|j: int| 0 <= j < i && j + 1 < s@.len() ==> !(#[trigger] s@[j] == '.' && s@[j + 1] == '.'),
        decreases s@.len() - i,
    {
        if s[i] == '.' && s[i + 1] == '.' {
            return true;
        }
        i = i + 1;
    }
    false
}

/// Whether `s` may be used as one path component (see [`safe_component`]).
pub fn is_safe_path_component(s: &str) -> (r: bool)
    ensures
        r == safe_component(s@),
{
    let cs = chars_of(s);
    let is_dot = cs.len() == 1 && cs[0] == '.';
    proof {
        if cs@ == seq!['.'] {
            assert(cs@.len() == 1 && cs@[0] == '.');
        }
        if is_dot {
            assert(cs@ =~= seq!['.']);
        }
    }
    cs.len() > 0 && !is_dot && !contains_char(&cs, '/') && !contains_char(&cs, '\\') && !contains_dotdot(&cs)
        && !contains_char(&cs, '\0')
}

/// Characters that Windows `cmd` re-interprets even inside quotes.
pub open spec fn cmd_unsafe(c: char) -> bool {
    c == '&' || c == '|' || c == '<' || c == '>' || c == '^' || c == '(' || c == ')' || c == '%'
        || c == '!' || c == '\'' || c == '"' || c == '\n' || c == '\r'
}

/// The first `cmd`-unsafe character of `s`, if any.
pub open spec fn first_cmd_unsafe(s: Seq<char>) -> Option<char>
    decreases s.len(),
{
    if s.len() == 0 {
        None
    } else if cmd_unsafe(s[0]) {
        Some(s[0])
    } else {
        first_cmd_unsafe(s.drop_first())
    }
}

/// Message of the error for a path holding `cmd`-unsafe character `c`.
pub open spec fn cmd_unsafe_message(c: char) -> Seq<char> {
    "path contains characters unsafe for Windows cmd shell: '"@ + seq![c]
        + "'. Rename the directory or switch to PowerShell / Windows Terminal."@
}

/// Refuses a directory that Windows `cmd` could not be handed safely: a
/// validation error naming the first unsafe character, else `Ok`.
pub fn reject_cmd_unsafe_path(path: &str) -> (r: Result<(), ApiError>)
    ensures
        first_cmd_unsafe(path@) is None ==> r is Ok,
        first_cmd_unsafe(path@) matches Some(c) ==> r matches Err(e) && e.code == ApiErrorCode::ValidationError
            && e.message@ == cmd_unsafe_message(c),
{
    let cs = chars_of(path);
    let mut i: usize = 0;
    assert(cs@.skip(0) =~= cs@);
    while i < cs.len()
        invariant
            i <= cs@.len(),
            cs@ == path@,
            first_cmd_unsafe(cs@.skip(i as int)) == first_cmd_unsafe(cs@),
        decreases cs@.len() - i,
    {
        assert(cs@.skip(i as int)[0] == cs@[i as int]);
        assert(cs@.skip(i as int).drop_first() =~= cs@.skip(i + 1));
        let c = cs[i];
        if c == '&' || c == '|' || c == '<' || c == '>' || c == '^' || c == '(' || c == ')' || c == '%'
            || c == '!' || c == '\'' || c == '"' || c == '\n' || c == '\r' {
            let mut msg = String::from_str("path contains characters unsafe for Windows cmd shell: '");
            push_char(&mut msg, c);
            msg.append("'. Rename the directory or switch to PowerShell / Windows Terminal.");
            return Err(ApiError::validation(msg));
        }
        i = i + 1;
    }
    assert(cs@.skip(i as int).len() == 0);
    Ok(())
}

/// Index of the first `/` in `s`, or its length when there is none.
pub open spec fn first_slash(s: Seq<char>) -> int
    decreases s.len(),
{
    if s.len() == 0 {
        0
    } else if s[0] == '/' {
        0
    } else {
        1 + first_slash(s.drop_first())
    }
}

/// After the first component, only separators and `.` components follow.
pub open spec fn only_separators_and_dots(t: Seq<char>) -> bool {
    forall|i: int|
        0 <= i < t.len() && #[trigger] t[i] != '/' ==> (t[i] == '.' && i > 0 && t[i - 1] == '/' && (i + 1
            == t.len() || t[i + 1] == '/'))
}

/// `s` names exactly one normal directory (Unix path syntax): a first
/// component other than `.`/`..`, followed by nothing but separators and
/// `.` components.
pub open spec fn single_normal_component(s: Seq<char>) -> bool {
    let p = first_slash(s);
    &&& p > 0
    &&& s.take(p) != seq!['.']
    &&& s.take(p) != seq!['.', '.']
    &&& only_separators_and_dots(s.skip(p))
}

proof fn lemma_first_slash(s: Seq<char>)
    ensures
        0 <= first_slash(s) <= s.len(),
        forall|j: int| 0 <= j < first_slash(s) ==> s[j] != '/',
        first_slash(s) < s.len() ==> s[first_slash(s)] == '/',
    decreases s.len(),
{
    if s.len() > 0 && s[0] != '/' {
        lemma_first_slash(s.drop_first());
        assert forall|j: int| 0 <= j < first_slash(s) implies s[j] != '/' by {
            if j > 0 {
                assert(s[j] == s.drop_first()[j - 1]);
            }
        }
    }
}

/// Accepts a project id only when it is one encoded project directory
/// name (see [`single_normal_component`]).
pub fn validate_project_base_dir(base_dir: &str) -> (r: Result<(), ApiError>)
    ensures
        r is Ok <==> single_normal_component(base_dir@),
        r matches Err(e) ==> e.code == ApiErrorCode::ValidationError
            && e.message@ == "project id must be an encoded project directory"@,
{
    let cs = chars_of(base_dir);
    proof {
        lemma_first_slash(cs@);
    }
    let mut p: usize = 0;
    while p < cs.len() && cs[p] != '/'
        invariant
            p <= cs@.len(),
            forall|j: int| 0 <= j < p ==> cs@[j] != '/',
            p <= first_slash(cs@),
            0 <= first_slash(cs@) <= cs@.len(),
            first_slash(cs@) < cs@.len() ==> cs@[first_slash(cs@)] == '/',
            forall|j: int| 0 <= j < first_slash(cs@) ==> cs@[j] != '/',
        decreases cs@.len() - p,
    {
        p = p + 1;
    }
    assert(p == first_slash(cs@));
    let dot = p == 1 && cs[0] == '.';
    let dotdot = p == 2 && cs[0] == '.' && cs[1] == '.';
    proof {
        assert(cs@.take(p as int).len() == p);
        if cs@.take(p as int) == seq!['.'] {
            assert(seq!['.'].len() == 1);
            assert(cs@.take(p as int)[0] == '.');
        }
        if dot {
            assert(cs@.take(p as int) =~= seq!['.']);
        }
        if cs@.take(p as int) == seq!['.', '.'] {
            assert(seq!['.', '.'].len() == 2);
            assert(cs@.take(p as int)[0] == '.' && cs@.take(p as int)[1] == '.');
        }
        if dotdot {
            assert(cs@.take(p as int) =~= seq!['.', '.']);
        }
    }
    let ghost t = cs@.skip(p as int);
    let mut ok_tail = true;
    let mut i: usize = p;
    while i < cs.len()
        invariant
            p <= i <= cs@.len(),
            t == cs@.skip(p as int),
            p < cs@.len() ==> cs@[p as int] == '/',
            ok_tail == (forall|j: int| 0 <= j < i - p && #[trigger] t[j] != '/' ==> (t[j] == '.' && j > 0 && t[j - 1] == '/'
                && (j + 1 == t.len() || t[j + 1] == '/'))),
        decreases cs@.len() - i,
    {
        let c = cs[i];
        let good = c == '/' || (c == '.' && i > p && cs[i - 1] == '/' && (i + 1 == cs.len() || cs[i + 1] == '/'));
        proof {
            let j = i - p;
            assert(t[j] == cs@[i as int]);
            if j > 0 {
                assert(t[j - 1] == cs@[i - 1]);
            }
            if j + 1 < t.len() {
                assert(t[j + 1] == cs@[i + 1]);
            }
        }
        ok_tail = ok_tail && good;
        i = i + 1;
    }
    proof {
        assert(t.len() == cs@.len() - p);
        assert(ok_tail == only_separators_and_dots(t));
        assert(cs@ == base_dir@);
        assert(dot <==> cs@.take(p as int) == seq!['.']);
        assert(dotdot <==> cs@.take(p as int) == seq!['.', '.']);
    }
    if p > 0 && !dot && !dotdot && ok_tail {
        Ok(())
    } else {
        Err(ApiError::validation(String::from_str("project id must be an encoded project directory")))
    }
}

/// `s` is a plain local Markdown file name: at least one character before
/// a final `.md` extension (ASCII case-insensitive) and no `/`, `\` or `:`.
pub open spec fn local_markdown_name(s: Seq<char>) -> bool {
    &&& s.len() >= 4
    &&& !s.contains('/')
    &&& !s.contains('\\')
    &&& !s.contains(':')
    &&& s[s.len() - 3] == '.'
    &&& ascii_lower(s[s.len() - 2]) == 'm'
    &&& ascii_lower(s[s.len() - 1]) == 'd'
}

/// Accepts a memory file name only when it is a plain local Markdown file
/// name (see [`local_markdown_name`]); returns it unchanged.
pub fn validate_memory_file_name(file: &str) -> (r: Result<String, ApiError>)
    ensures
        r is Ok <==> local_markdown_name(file@),
        r matches Ok(s) ==> s@ == file@,
        r matches Err(e) ==> e.code == ApiErrorCode::ValidationError
            && e.message@ == "memory file must be a local .md filename"@,
{
    let cs = chars_of(file);
    let n = cs.len();
    let ok = n >= 4 && !contains_char(&cs, '/') && !contains_char(&cs, '\\') && !contains_char(&cs, ':')
        && cs[n - 3] == '.' && to_ascii_lower(cs[n - 2]) == 'm' && to_ascii_lower(cs[n - 1]) == 'd';
    if ok {
        Ok(String::from_str(file))
    } else {
        Err(ApiError::validation(String::from_str("memory file must be a local .md filename")))
    }
}

/// Key of a background metadata scan: `"{project_id}|{cursor}"`, with an
/// absent cursor written as the empty string.
pub fn metadata_scan_key(project_id: &str, cursor: Option<&str>) -> (r: String)
    ensures
        r@ == project_id@ + seq!['|'] + (match cursor { Some(c) => c@, None => Seq::<char>::empty() }),
{
    let mut s = String::from_str(project_id);
    push_char(&mut s, '|');
    match cursor {
        Some(c) => s.append(c),
        None => {},
    }
    proof {
        if cursor is None {
            assert(s@ =~= project_id@ + seq!['|'] + Seq::<char>::empty());
        }
    }
    s
}

/// Index of the last `/` in `s`, or -1.
pub open spec fn last_slash(s: Seq<char>) -> int
    decreases s.len(),
{
    if s.len() == 0 {
        -1
    } else if s.last() == '/' {
        s.len() - 1
    } else {
        last_slash(s.drop_last())
    }
}

/// `p` starts at the root directory.
pub open spec fn has_root(p: Seq<char>) -> bool {
    p.len() > 0 && p[0] == '/'
}

/// `p` starts with a `.` component (a relative path such as `.` or `./a`).
pub open spec fn has_cur_dir(p: Seq<char>) -> bool {
    !has_root(p) && p.len() > 0 && p[0] == '.' && (p.len() == 1 || p[1] == '/')
}

/// Length of the leading root or `.` of `p`; the components that follow
/// it make up the body.
pub open spec fn lead_len(p: Seq<char>) -> int {
    if has_root(p) || has_cur_dir(p) {
        1
    } else {
        0
    }
}

pub proof fn lemma_last_slash_bounds(s: Seq<char>)
    ensures
        -1 <= last_slash(s) < s.len(),
        last_slash(s) >= 0 ==> s[last_slash(s)] == '/',
        forall|j: int| last_slash(s) < j < s.len() ==> s[j] != '/',
    decreases s.len(),
{
    if s.len() > 0 {
        lemma_last_slash_bounds(s.drop_last());
        if s.last() != '/' {
            assert forall|j: int| last_slash(s) < j < s.len() implies s[j] != '/' by {
                if j < s.len() - 1 {
                    assert(s.drop_last()[j] == s[j]);
                }
            }
            if last_slash(s) >= 0 {
                assert(s.drop_last()[last_slash(s)] == s[last_slash(s)]);
            }
        }
    }
}

/// Where the last body component of `p` lies: the length of what precedes
/// it (its separator excluded) and where it starts. Meaningful when the
/// body is not empty.
pub open spec fn last_comp_bounds(p: Seq<char>) -> (int, int) {
    let b = lead_len(p);
    let i = last_slash(p.skip(b));
    if i < 0 {
        (b, b)
    } else {
        (b + i, b + i + 1)
    }
}

pub proof fn lemma_bounds(p: Seq<char>)
    requires
        p.len() > lead_len(p),
    ensures
        lead_len(p) <= last_comp_bounds(p).0 < p.len(),
        last_comp_bounds(p).0 < last_comp_bounds(p).1 || last_comp_bounds(p).0 == last_comp_bounds(p).1 == lead_len(p),
        last_comp_bounds(p).1 <= p.len(),
        forall|j: int| last_comp_bounds(p).1 <= j < p.len() ==> p[j] != '/',
{
    let b = lead_len(p);
    lemma_last_slash_bounds(p.skip(b));
    let i = last_slash(p.skip(b));
    assert forall|j: int| last_comp_bounds(p).1 <= j < p.len() implies p[j] != '/' by {
        assert(p.skip(b)[j - b] == p[j]);
    }
}

/// A component that paths skip: an empty one (between repeated or after
/// trailing separators) or `.`.
pub open spec fn is_junk(c: Seq<char>) -> bool {
    c.len() == 0 || c == seq!['.']
}

/// `p` without trailing empty and `.` components.
pub open spec fn trim_junk(p: Seq<char>) -> Seq<char>
    decreases p.len(),
{
    if p.len() > lead_len(p) {
        proof {
            lemma_bounds(p);
        }
        if is_junk(p.skip(last_comp_bounds(p).1)) {
            trim_junk(p.take(last_comp_bounds(p).0))
        } else {
            p
        }
    } else {
        p
    }
}

pub proof fn lemma_trim_junk_prefix(p: Seq<char>)
    ensures
        trim_junk(p).len() <= p.len(),
        trim_junk(p) == p.take(trim_junk(p).len() as int),
        trim_junk(p).len() > lead_len(trim_junk(p)) ==> !is_junk(
            trim_junk(p).skip(last_comp_bounds(trim_junk(p)).1),
        ),
    decreases p.len(),
{
    if p.len() > lead_len(p) {
        lemma_bounds(p);
        if is_junk(p.skip(last_comp_bounds(p).1)) {
            let q = p.take(last_comp_bounds(p).0);
            lemma_trim_junk_prefix(q);
            assert(trim_junk(p) == trim_junk(q));
            assert(q.take(trim_junk(q).len() as int) =~= p.take(trim_junk(q).len() as int));
        } else {
            assert(p.take(p.len() as int) =~= p);
        }
    } else {
        assert(p.take(p.len() as int) =~= p);
    }
}

/// The leading component: the root as `/`, a leading `.`, or none.
pub open spec fn lead_comps(p: Seq<char>) -> Seq<Seq<char>> {
    if has_root(p) {
        seq![seq!['/']]
    } else if has_cur_dir(p) {
        seq![seq!['.']]
    } else {
        Seq::empty()
    }
}

/// The components of a path in Unix syntax, as std's `Path::components`
/// gives them: the root (written `/`) or a leading `.`, then every
/// non-empty component other than `.`. Two paths are equal when their
/// components are.
pub open spec fn path_comps(p: Seq<char>) -> Seq<Seq<char>>
    decreases p.len(),
{
    let t = trim_junk(p);
    proof {
        lemma_trim_junk_prefix(p);
    }
    if t.len() > lead_len(t) {
        proof {
            lemma_bounds(t);
        }
        path_comps(t.take(last_comp_bounds(t).0)).push(t.skip(last_comp_bounds(t).1))
    } else {
        lead_comps(t)
    }
}

/// Parent directory, as std's `Path::parent` gives it: `None` for the root
/// and the empty path; otherwise the text before the last component, with
/// trailing separators and `.` components removed (empty for a single
/// relative component).
pub open spec fn parent_dir(p: Seq<char>) -> Option<Seq<char>> {
    let t = trim_junk(p);
    if t.len() > lead_len(t) {
        Some(trim_junk(t.take(last_comp_bounds(t).0)))
    } else if has_cur_dir(t) {
        Some(Seq::empty())
    } else {
        None
    }
}

/// `b` appended to `a` as a path: an absolute `b` replaces `a`, an empty
/// `a` gives `b`, and one separator is put between them when `a` does not
/// already end with one.
pub open spec fn join_path(a: Seq<char>, b: Seq<char>) -> Seq<char> {
    if b.len() > 0 && b[0] == '/' {
        b
    } else if a.len() == 0 {
        b
    } else if a.last() == '/' {
        a + b
    } else {
        a + seq!['/'] + b
    }
}

/// Joins two paths (see [`join_path`]).
pub fn path_join(a: &str, b: &str) -> (r: String)
    ensures
        r@ == join_path(a@, b@),
{
    let bs = chars_of(b);
    let as_ = chars_of(a);
    if bs.len() > 0 && bs[0] == '/' {
        return String::from_str(b);
    }
    if as_.len() == 0 {
        return String::from_str(b);
    }
    let mut s = String::from_str(a);
    if as_[as_.len() - 1] != '/' {
        push_char(&mut s, '/');
    }
    s.append(b);
    s
}

fn lead_len_of(cs: &[char], n: usize) -> (r: usize)
    requires
        n <= cs@.len(),
    ensures
        r == lead_len(cs@.take(n as int)),
{
    if n > 0 && cs[0] == '/' {
        1
    } else if n > 0 && cs[0] == '.' && (n == 1 || cs[1] == '/') {
        1
    } else {
        0
    }
}

fn bounds_of(cs: &[char], n: usize) -> (r: (usize, usize))
    requires
        n <= cs@.len(),
        n > lead_len(cs@.take(n as int)),
    ensures
        (r.0 as int, r.1 as int) == last_comp_bounds(cs@.take(n as int)),
        r.0 < n,
        r.1 <= n,
{
    let b = lead_len_of(cs, n);
    let ghost p = cs@.take(n as int);
    proof {
        lemma_bounds(p);
        assert(p.skip(b as int) =~= cs@.subrange(b as int, n as int));
    }
    let mut k: usize = n;
    while k > b && cs[k - 1] != '/'
        invariant
            b <= k <= n <= cs@.len(),
            last_slash(cs@.subrange(b as int, k as int)) == last_slash(cs@.subrange(b as int, n as int)),
        decreases k,
    {
        assert(cs@.subrange(b as int, k as int).drop_last() =~= cs@.subrange(b as int, k - 1));
        k = k - 1;
    }
    if k == b {
        assert(cs@.subrange(b as int, k as int).len() == 0);
        (b, b)
    } else {
        assert(cs@.subrange(b as int, k as int).last() == '/');
        (k - 1, k)
    }
}

fn junk_at(cs: &[char], c: usize, n: usize) -> (r: bool)
    requires
        c <= n <= cs@.len(),
    ensures
        r == is_junk(cs@.take(n as int).skip(c as int)),
{
    let r = n == c || (n - c == 1 && cs[c] == '.');
    proof {
        let comp = cs@.take(n as int).skip(c as int);
        if n - c == 1 && cs[c as int] == '.' {
            assert(comp =~= seq!['.']);
        }
        assert(comp.len() == n - c);
        if comp == seq!['.'] {
            assert(comp.len() == 1);
            assert(comp[0] == cs@.take(n as int)[c as int]);
            assert(comp[0] == cs@[c as int]);
        }
    }
    r
}

fn trim_junk_len(cs: &[char], n: usize) -> (r: usize)
    requires
        n <= cs@.len(),
    ensures
        r <= n,
        cs@.take(r as int) == trim_junk(cs@.take(n as int)),
{
    let mut k: usize = n;
    loop
        invariant
            k <= n <= cs@.len(),
            trim_junk(cs@.take(k as int)) == trim_junk(cs@.take(n as int)),
        ensures
            k <= n,
            cs@.take(k as int) == trim_junk(cs@.take(n as int)),
        decreases k,
    {
        let b = lead_len_of(cs, k);
        if k <= b {
            return k;
        }
        let (r, c) = bounds_of(cs, k);
        if junk_at(cs, c, k) {
            assert(cs@.take(k as int).take(r as int) =~= cs@.take(r as int));
            k = r;
        } else {
            return k;
        }
    }
}

fn same_segment(a: &[char], sa: usize, ta: usize, b: &[char], sb: usize, tb: usize) -> (r: bool)
    requires
        sa <= ta <= a@.len(),
        sb <= tb <= b@.len(),
    ensures
        r == (a@.take(ta as int).skip(sa as int) == b@.take(tb as int).skip(sb as int)),
{
    let ghost x = a@.take(ta as int).skip(sa as int);
    let ghost y = b@.take(tb as int).skip(sb as int);
    if ta - sa != tb - sb {
        assert(x.len() != y.len());
        return false;
    }
    let n = ta - sa;
    let mut i: usize = 0;
    while i < n
        invariant
            n == ta - sa == tb - sb,
            sa <= ta <= a@.len(),
            sb <= tb <= b@.len(),
            x == a@.take(ta as int).skip(sa as int),
            y == b@.take(tb as int).skip(sb as int),
            i <= n,
            forall|j: int| 0 <= j < i ==> x[j] == y[j],
        decreases n - i,
    {
        assert(x[i as int] == a@[sa + i]);
        assert(y[i as int] == b@[sb + i]);
        if a[sa + i] != b[sb + i] {
            return false;
        }
        i = i + 1;
    }
    assert(x =~= y);
    true
}

proof fn lemma_push_eq<T>(x: Seq<T>, c: T, y: Seq<T>, d: T)
    ensures
        (x.push(c) == y.push(d)) == (x == y && c == d),
{
    if x.push(c) == y.push(d) {
        assert(x.push(c).drop_last() =~= x);
        assert(y.push(d).drop_last() =~= y);
        assert(x.push(c).last() == c);
    }
}

/// Whether two paths name the same path, component by component (as std
/// compares `Path`s): `a/b`, `a//b`, `a/./b` and `a/b/` are the same path.
pub fn same_path(a: &str, b: &str) -> (r: bool)
    ensures
        r == (path_comps(a@) == path_comps(b@)),
{
    let ca = chars_of(a);
    let cb = chars_of(b);
    assert(ca@.take(ca@.len() as int) =~= ca@);
    assert(cb@.take(cb@.len() as int) =~= cb@);
    let mut ka: usize = ca.len();
    let mut kb: usize = cb.len();
    loop
        invariant
            ka <= ca@.len(),
            kb <= cb@.len(),
            ca@ == a@,
            cb@ == b@,
            (path_comps(a@) == path_comps(b@)) == (path_comps(ca@.take(ka as int)) == path_comps(cb@.take(kb as int))),
        decreases ka + kb,
    {
        let ta = trim_junk_len(&ca, ka);
        let tb = trim_junk_len(&cb, kb);
        let la = lead_len_of(&ca, ta);
        let lb = lead_len_of(&cb, tb);
        let ghost pa = ca@.take(ta as int);
        let ghost pb = cb@.take(tb as int);
        proof {
            lemma_trim_junk_prefix(ca@.take(ka as int));
            lemma_trim_junk_prefix(cb@.take(kb as int));
            assert(path_comps(ca@.take(ka as int)) == (if pa.len() > lead_len(pa) {
                path_comps(pa.take(last_comp_bounds(pa).0)).push(pa.skip(last_comp_bounds(pa).1))
            } else {
                lead_comps(pa)
            }));
            assert(path_comps(cb@.take(kb as int)) == (if pb.len() > lead_len(pb) {
                path_comps(pb.take(last_comp_bounds(pb).0)).push(pb.skip(last_comp_bounds(pb).1))
            } else {
                lead_comps(pb)
            }));
        }
        if ta > la && tb > lb {
            let (ra, sa) = bounds_of(&ca, ta);
            let (rb, sb) = bounds_of(&cb, tb);
            proof {
                assert(pa.take(ra as int) =~= ca@.take(ra as int));
                assert(pb.take(rb as int) =~= cb@.take(rb as int));
                lemma_push_eq(
                    path_comps(ca@.take(ra as int)),
                    pa.skip(sa as int),
                    path_comps(cb@.take(rb as int)),
                    pb.skip(sb as int),
                );
            }
            if !same_segment(&ca, sa, ta, &cb, sb, tb) {
                return false;
            }
            ka = ra;
            kb = rb;
        } else if ta > la || tb > lb {
            proof {
                let (p, q) = if ta > la {
                    (pa, pb)
                } else {
                    (pb, pa)
                };
                lemma_bounds(p);
                let c = p.skip(last_comp_bounds(p).1);
                let x = path_comps(p.take(last_comp_bounds(p).0)).push(c);
                if x == lead_comps(q) {
                    assert(x.last() == c);
                    assert(c.len() > 0);
                    assert(c[0] == p[last_comp_bounds(p).1]);
                    if has_root(q) {
                        assert(lead_comps(q)[0] == seq!['/']);
                        assert(c == seq!['/']);
                    } else if has_cur_dir(q) {
                        assert(lead_comps(q)[0] == seq!['.']);
                        assert(c == seq!['.']);
                    }
                }
            }
            return false;
        } else {
            let root_a = ta > 0 && ca[0] == '/';
            let root_b = tb > 0 && cb[0] == '/';
            let cur_a = !root_a && ta > 0 && ca[0] == '.' && (ta == 1 || ca[1] == '/');
            let cur_b = !root_b && tb > 0 && cb[0] == '.' && (tb == 1 || cb[1] == '/');
            proof {
                assert(root_a == has_root(pa));
                assert(root_b == has_root(pb));
                assert(cur_a == has_cur_dir(pa));
                assert(cur_b == has_cur_dir(pb));
                if lead_comps(pa) == lead_comps(pb) {
                    if root_a != root_b || cur_a != cur_b {
                        if root_a {
                            assert(lead_comps(pa)[0] == seq!['/']);
                            if cur_b {
                                assert(lead_comps(pb)[0] == seq!['.']);
                                assert(seq!['/'][0] != seq!['.'][0]);
                            }
                        } else if root_b {
                            assert(lead_comps(pb)[0] == seq!['/']);
                            if cur_a {
                                assert(lead_comps(pa)[0] == seq!['.']);
                                assert(seq!['/'][0] != seq!['.'][0]);
                            }
                        }
                        assert(lead_comps(pa).len() != lead_comps(pb).len() || lead_comps(pa)[0] != lead_comps(pb)[0]);
                    }
                }
            }
            return root_a == root_b && cur_a == cur_b;
        }
    }
}

/// The parent of a path (see [`parent_dir`]).
pub fn path_parent(p: &str) -> (r: Option<String>)
    ensures
        match r {
            Some(q) => parent_dir(p@) == Some(q@),
            None => parent_dir(p@) is None,
        },
{
    let cs = chars_of(p);
    assert(cs@.take(cs@.len() as int) =~= cs@);
    let t = trim_junk_len(&cs, cs.len());
    let b = lead_len_of(&cs, t);
    if t > b {
        let (r, _c) = bounds_of(&cs, t);
        assert(cs@.take(t as int).take(r as int) =~= cs@.take(r as int));
        let q = trim_junk_len(&cs, r);
        let out = slice_range(&cs, 0, q);
        assert(out@ =~= cs@.take(q as int));
        Some(string_from_chars(&out))
    } else if t > 0 && cs[0] == '.' && (t == 1 || cs[1] == '/') {
        Some(String::new())
    } else {
        None
    }
}

/// The `todos` directory next to the projects directory: `<parent>/todos`,
/// or `<projects_dir>/..` when the projects directory has no parent.
pub fn todos_dir_from_projects_dir(projects_dir: &str) -> (r: String)
    ensures
        r@ == (match parent_dir(projects_dir@) {
            Some(q) => join_path(q, "todos"@),
            None => join_path(projects_dir@, ".."@),
        }),
{
    match path_parent(projects_dir) {
        Some(q) => path_join(q.as_str(), "todos"),
        None => path_join(projects_dir, ".."),
    }
}

/// Path of a session's JSONL file: `<projects_dir>/<project_id>/<session_id>.jsonl`.
pub fn session_jsonl_path(projects_dir: &str, project_id: &str, session_id: &str) -> (r: String)
    ensures
        r@ == join_path(join_path(projects_dir@, project_id@), session_id@ + ".jsonl"@),
{
    let dir = path_join(projects_dir, project_id);
    let mut file = String::from_str(session_id);
    file.append(".jsonl");
    path_join(dir.as_str(), file.as_str())
}

/// File name of a subagent's session file: `agent-<session_id>.jsonl`.
pub open spec fn subagent_file_name(session_id: Seq<char>) -> Seq<char> {
    "agent-"@ + session_id + ".jsonl"@
}

fn subagent_file(session_id: &str) -> (r: String)
    ensures
        r@ == subagent_file_name(session_id@),
{
    let mut f = String::from_str("agent-");
    f.append(session_id);
    f.append(".jsonl");
    f
}

/// Where a subagent file sits directly in its project directory:
/// `<project_dir>/agent-<session_id>.jsonl`.
pub fn subagent_flat_path(project_dir: &str, session_id: &str) -> (r: String)
    ensures
        r@ == join_path(project_dir@, subagent_file_name(session_id@)),
{
    let f = subagent_file(session_id);
    path_join(project_dir, f.as_str())
}

/// Where a subagent file sits under the directory of the session that
/// started it: `<session_dir>/subagents/agent-<session_id>.jsonl`.
pub fn subagent_nested_path(session_dir: &str, session_id: &str) -> (r: String)
    ensures
        r@ == join_path(join_path(session_dir@, "subagents"@), subagent_file_name(session_id@)),
{
    let d = path_join(session_dir, "subagents");
    let f = subagent_file(session_id);
    path_join(d.as_str(), f.as_str())
}

} // verus!
