//! Filtering of session listings for command-line and tool clients:
//! creation-time bound, title and branch substring matches, result limit.

use vstd::prelude::*;

use crate::text::{chars_of, to_lowercase, unicode_lowercase};

verus! {

/// Filter of a session listing; every field that is `None` is not applied.
#[derive(Debug, Clone, Default)]
pub struct SessionListFilter {
    /// Lower bound on the modification time, applied by the directory scan.
    pub since: Option<i64>,
    /// Upper bound on the creation time, in milliseconds.
    pub until: Option<i64>,
    /// Case-insensitive substring of the title.
    pub grep: Option<String>,
    /// Case-insensitive substring of the git branch.
    pub branch: Option<String>,
    /// Most sessions to return.
    pub limit: Option<usize>,
}

/// `needle` occurs in `hay` as a contiguous run.
pub open spec fn has_substring(hay: Seq<char>, needle: Seq<char>) -> bool {
    exists|i: int| 0 <= i && i + needle.len() <= hay.len() && #[trigger] hay.subrange(i, i + needle.len()) == needle
}

/// Whether `needle` occurs in `hay`.
pub fn contains_substring(hay: &[char], needle: &[char]) -> (r: bool)
    ensures
        r == has_substring(hay@, needle@),
{
    let n = needle.len();
    let h = hay.len();
    if n > h {
        return false;
    }
    let last = h - n;
    let mut i: usize = 0;
    while i <= last
        invariant
            n == needle@.len(),
            last + n == hay@.len(),
            h == hay@.len(),
            i <= last + 1,
            forall|k: int| 0 <= k < i ==> #[trigger] hay@.subrange(k, k + n) != needle@,
        decreases last + 1 - i,
    {
        let mut j: usize = 0;
        let mut same = true;
        while same && j < n
            invariant
                n == needle@.len(),
                last + n == hay@.len(),
                h == hay@.len(),
                i <= last,
                j <= n,
                forall|t: int| 0 <= t < j ==> hay@[i + t] == needle@[t],
                !same ==> j < n && hay@[i + j] != needle@[j as int],
            decreases n - j + (if same { 1int } else { 0int }),
        {
            assert(i + j < h);
            if hay[i + j] == needle[j] {
                j = j + 1;
            } else {
                same = false;
            }
        }
        if j == n {
            assert(hay@.subrange(i as int, i + n) =~= needle@);
            return true;
        }
        assert(hay@.subrange(i as int, i + n)[j as int] != needle@[j as int]);
        i = i + 1;
    }
    proof {
        if has_substring(hay@, needle@) {
            let k = choose|k: int| 0 <= k && k + needle@.len() <= hay@.len() && #[trigger] hay@.subrange(k, k + needle@.len()) == needle@;
            assert(hay@.subrange(k, k + n) == needle@);
        }
    }
    false
}

/// A session created at `created_ms` passes the creation-time bound.
pub open spec fn within_until(f: SessionListFilter, created_ms: i64) -> bool {
    match f.until {
        Some(u) => created_ms <= u,
        None => true,
    }
}

/// `text`, when present, holds `needle` ignoring case.
pub open spec fn matches_ci(text: Option<Seq<char>>, needle: Seq<char>) -> bool {
    match text {
        Some(t) => has_substring(unicode_lowercase(t), unicode_lowercase(needle)),
        None => false,
    }
}

/// A session with this title and branch passes the title and branch
/// filters (an empty title filter passes everything).
pub open spec fn metadata_matches(f: SessionListFilter, title: Option<Seq<char>>, branch: Option<Seq<char>>) -> bool {
    &&& match f.grep {
        Some(g) => unicode_lowercase(g@).len() == 0 || matches_ci(title, g@),
        None => true,
    }
    &&& match f.branch {
        Some(b) => matches_ci(branch, b@),
        None => true,
    }
}

/// Whether a session created at `created_ms` is inside the creation-time
/// bound (checked before its metadata is read).
pub fn passes_until(filter: &SessionListFilter, created_ms: i64) -> (r: bool)
    ensures
        r == within_until(*filter, created_ms),
{
    match filter.until {
        Some(u) => created_ms <= u,
        None => true,
    }
}

fn lower_contains(text: Option<&str>, needle_lower: &[char]) -> (r: bool)
    ensures
        r == match text {
            Some(t) => has_substring(unicode_lowercase(t@), needle_lower@),
            None => false,
        },
{
    match text {
        Some(t) => {
            let lower = to_lowercase(t);
            let cs = chars_of(lower.as_str());
            contains_substring(&cs, needle_lower)
        },
        None => false,
    }
}

/// Whether a session with this title and branch passes the title and
/// branch filters; titles and branches are compared in lower case.
pub fn passes_metadata(filter: &SessionListFilter, title: Option<&str>, git_branch: Option<&str>) -> (r: bool)
    ensures
        r == metadata_matches(
            *filter,
            match title {
                Some(t) => Some(t@),
                None => None,
            },
            match git_branch {
                Some(b) => Some(b@),
                None => None,
            },
        ),
{
    let grep_ok = match &filter.grep {
        Some(g) => {
            let needle = to_lowercase(g.as_str());
            let nc = chars_of(needle.as_str());
            nc.len() == 0 || lower_contains(title, &nc)
        },
        None => true,
    };
    if !grep_ok {
        return false;
    }
    match &filter.branch {
        Some(b) => {
            let needle = to_lowercase(b.as_str());
            let nc = chars_of(needle.as_str());
            lower_contains(git_branch, &nc)
        },
        None => true,
    }
}

/// Whether `count` matched sessions fill the limit.
pub fn limit_reached(filter: &SessionListFilter, count: usize) -> (r: bool)
    ensures
        r == match filter.limit {
            Some(l) => count >= l,
            None => count >= usize::MAX,
        },
{
    let limit = match filter.limit {
        Some(l) => l,
        None => usize::MAX,
    };
    count >= limit
}

/// One listed session as the filter sees it: creation time, title and
/// branch.
pub struct ListedSession {
    pub created_ms: i64,
    pub title: Option<Seq<char>>,
    pub branch: Option<Seq<char>>,
}

/// The session passes every filter.
pub open spec fn session_matches(f: SessionListFilter, e: ListedSession) -> bool {
    within_until(f, e.created_ms) && metadata_matches(f, e.title, e.branch)
}

/// The count at which the listing stops.
pub open spec fn limit_value(f: SessionListFilter) -> int {
    match f.limit {
        Some(l) => l as int,
        None => usize::MAX as int,
    }
}

/// Number of entries of `es` that pass the filter.
pub open spec fn match_count(f: SessionListFilter, es: Seq<ListedSession>) -> nat
    decreases es.len(),
{
    if es.len() == 0 {
        0
    } else {
        match_count(f, es.drop_last()) + if session_matches(f, es.last()) {
            1nat
        } else {
            0nat
        }
    }
}

/// Most sessions a listing returns: the limit, but at least one.
pub open spec fn effective_limit(f: SessionListFilter) -> int {
    if limit_value(f) == 0 {
        1
    } else {
        limit_value(f)
    }
}

/// Positions the listing takes, entry by entry: a matching entry is taken
/// until a taken entry brings the count to the limit, after which the
/// listing stops.
pub open spec fn listing_taken(f: SessionListFilter, es: Seq<ListedSession>) -> Seq<int>
    decreases es.len(),
{
    if es.len() == 0 {
        Seq::empty()
    } else {
        let s = listing_taken(f, es.drop_last());
        if s.len() > 0 && s.len() >= limit_value(f) {
            s
        } else if session_matches(f, es.last()) {
            s.push(es.len() - 1)
        } else {
            s
        }
    }
}

/// What the listing does with one entry after `kept` sessions were taken:
/// whether it takes it, and whether the listing stops after it. An entry
/// outside the creation-time bound is skipped whatever its title and
/// branch, so its metadata need not be read.
pub fn filter_decision(
    filter: &SessionListFilter,
    kept: usize,
    created_ms: i64,
    title: Option<&str>,
    git_branch: Option<&str>,
) -> (r: (bool, bool))
    requires
        kept < usize::MAX,
    ensures
        r.0 == session_matches(
            *filter,
            ListedSession {
                created_ms,
                title: match title {
                    Some(t) => Some(t@),
                    None => None,
                },
                branch: match git_branch {
                    Some(b) => Some(b@),
                    None => None,
                },
            },
        ),
        !within_until(*filter, created_ms) ==> !r.0,
        r.1 == (r.0 && kept + 1 >= limit_value(*filter)),
{
    let take = passes_until(filter, created_ms) && passes_metadata(filter, title, git_branch);
    let stop = take && limit_reached(filter, kept + 1);
    (take, stop)
}

} // verus!
