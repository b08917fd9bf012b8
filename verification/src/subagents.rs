//! Which files of a session directory hold subagent runs, and which of the
//! subagents read from them are shown under a session: those found under
//! the session's own directory, then those of the project directory that
//! name the session as parent, each subagent once.

use vstd::prelude::*;

use crate::messages::SubagentHeader;
use crate::text::{chars_of, opt_view, str_eq, strings_contain, strs_view};

verus! {

/// `s` begins with `p`.
pub open spec fn starts_with(s: Seq<char>, p: Seq<char>) -> bool {
    s.len() >= p.len() && s.take(p.len() as int) == p
}

/// `s` ends with `p`.
pub open spec fn ends_with(s: Seq<char>, p: Seq<char>) -> bool {
    s.len() >= p.len() && s.skip(s.len() - p.len()) == p
}

/// A file holding a subagent run: `agent-*.jsonl`, except the
/// `agent-acompact*` files that compaction writes.
pub open spec fn subagent_file(name: Seq<char>) -> bool {
    starts_with(name, "agent-"@) && ends_with(name, ".jsonl"@) && !starts_with(name, "agent-acompact"@)
}

fn has_prefix(s: &[char], p: &[char]) -> (r: bool)
    ensures
        r == starts_with(s@, p@),
{
    if s.len() < p.len() {
        return false;
    }
    let mut i: usize = 0;
    while i < p.len()
        invariant
            i <= p@.len() <= s@.len(),
            forall|j: int| 0 <= j < i ==> s@[j] == p@[j],
        decreases p@.len() - i,
    {
        if s[i] != p[i] {
            assert(s@.take(p@.len() as int)[i as int] != p@[i as int]);
            return false;
        }
        i = i + 1;
    }
    assert(s@.take(p@.len() as int) =~= p@);
    true
}

fn has_suffix(s: &[char], p: &[char]) -> (r: bool)
    ensures
        r == ends_with(s@, p@),
{
    if s.len() < p.len() {
        return false;
    }
    let off = s.len() - p.len();
    let mut i: usize = 0;
    while i < p.len()
        invariant
            off + p@.len() == s@.len(),
            s@.len() == s.len(),
            i <= p@.len(),
            forall|j: int| 0 <= j < i ==> s@[off + j] == p@[j],
        decreases p@.len() - i,
    {
        if s[off + i] != p[i] {
            assert(s@.skip(off as int)[i as int] != p@[i as int]);
            return false;
        }
        i = i + 1;
    }
    assert(s@.skip(off as int) =~= p@);
    true
}

/// Whether a directory entry named `name` holds a subagent run.
pub fn is_subagent_file(name: &str) -> (r: bool)
    ensures
        r == subagent_file(name@),
{
    let cs = chars_of(name);
    let agent = chars_of("agent-");
    let ext = chars_of(".jsonl");
    let compact = chars_of("agent-acompact");
    has_prefix(&cs, &agent) && has_suffix(&cs, &ext) && !has_prefix(&cs, &compact)
}

/// The subagents in the order they are considered, each with its id and
/// whether it may be shown: every one found under the session's directory,
/// then those of the project directory whose parent is `root`.
pub open spec fn candidate_items(nested: Seq<SubagentHeader>, flat: Seq<SubagentHeader>, root: Seq<char>) -> Seq<
    (Seq<char>, bool),
> {
    nested.map_values(|h: SubagentHeader| (h.session_id@, true)) + flat.map_values(
        |h: SubagentHeader| (h.session_id@, opt_view(h.parent_session_id) == Some(root)),
    )
}

/// Ids of the subagents shown, in order: an eligible one is shown unless a
/// subagent of the same id already was.
pub open spec fn shown_ids(items: Seq<(Seq<char>, bool)>) -> Seq<Seq<char>>
    decreases items.len(),
{
    if items.len() == 0 {
        Seq::empty()
    } else {
        let ids = shown_ids(items.drop_last());
        let l = items.last();
        if l.1 && !ids.contains(l.0) {
            ids.push(l.0)
        } else {
            ids
        }
    }
}

/// Positions (in `items`) of the subagents shown, in order.
pub open spec fn shown_positions(items: Seq<(Seq<char>, bool)>) -> Seq<int>
    decreases items.len(),
{
    if items.len() == 0 {
        Seq::empty()
    } else {
        let l = items.last();
        if l.1 && !shown_ids(items.drop_last()).contains(l.0) {
            shown_positions(items.drop_last()).push(items.len() - 1)
        } else {
            shown_positions(items.drop_last())
        }
    }
}

/// The subagents shown under session `root_session_id`, as positions into
/// `nested` followed by `flat` (a position `p >= nested.len()` is
/// `flat[p - nested.len()]`).
pub fn select_subagent_candidates(nested: &[SubagentHeader], flat: &[SubagentHeader], root_session_id: &str) -> (r: Vec<
    usize,
>)
    requires
        nested@.len() + flat@.len() <= usize::MAX,
    ensures
        r@.map_values(|p: usize| p as int) == shown_positions(candidate_items(nested@, flat@, root_session_id@)),
{
    let ghost items = candidate_items(nested@, flat@, root_session_id@);
    let total = nested.len() + flat.len();
    let mut seen: Vec<String> = Vec::new();
    let mut out: Vec<usize> = Vec::new();
    let mut i: usize = 0;
    assert(items.take(0) =~= Seq::<(Seq<char>, bool)>::empty());
    assert(strs_view(seen@) =~= Seq::<Seq<char>>::empty());
    while i < total
        invariant
            total == nested@.len() + flat@.len(),
            items == candidate_items(nested@, flat@, root_session_id@),
            items.len() == total,
            i <= total,
            strs_view(seen@) == shown_ids(items.take(i as int)),
            out@.map_values(|p: usize| p as int) == shown_positions(items.take(i as int)),
        decreases total - i,
    {
        let (id, eligible) = if i < nested.len() {
            (nested[i].session_id.as_str(), true)
        } else {
            let h = &flat[i - nested.len()];
            let ok = match &h.parent_session_id {
                Some(p) => str_eq(p.as_str(), root_session_id),
                None => false,
            };
            (h.session_id.as_str(), ok)
        };
        proof {
            assert(items[i as int] == (id@, eligible));
            assert(items.take(i + 1).drop_last() =~= items.take(i as int));
            assert(items.take(i + 1).last() == items[i as int]);
        }
        if eligible && !strings_contain(seen.as_slice(), id) {
            seen.push(String::from_str(id));
            out.push(i);
            proof {
                assert(strs_view(seen@) =~= shown_ids(items.take(i as int)).push(id@));
                assert(out@.map_values(|p: usize| p as int) =~= shown_positions(items.take(i as int)).push(i as int));
            }
        }
        i = i + 1;
    }
    assert(items.take(total as int) =~= items);
    out
}

} // verus!
