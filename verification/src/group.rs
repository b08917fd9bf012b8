//! Paging through the sessions of a repository group: finding the group,
//! resuming each worktree where the cursor left it, merging the worktrees'
//! sessions newest first, and the cursor of the next page.

use vstd::prelude::*;

use crate::error::{ApiError, ApiErrorCode};
use crate::image::{base64_decode, base64_encode, base64_standard_decoding, base64_standard_encoding};
use crate::lex::{lemma_lex_irreflexive, lemma_lex_total, lemma_lex_transitive, lex_lt, str_lt};
use crate::text::str_eq;

verus! {

/// A worktree of a repository group: its id (the project id of its
/// sessions), its name, and where the sessions' working directory lies
/// inside the repository, when known.
#[derive(Debug)]
pub struct Worktree {
    pub id: String,
    pub name: String,
    pub cwd_relative_to_repo_root: Option<String>,
}

/// A repository with its worktrees.
#[derive(Debug)]
pub struct RepositoryGroup {
    pub id: String,
    pub name: String,
    pub worktrees: Vec<Worktree>,
}

/// Whether group `g` has a worktree with id `id`.
pub open spec fn has_worktree(g: RepositoryGroup, id: Seq<char>) -> bool {
    exists|k: int| 0 <= k < g.worktrees@.len() && (#[trigger] g.worktrees@[k]).id@ == id
}

/// First position `>= from` of a group whose id is `id`.
pub open spec fn first_group_with_id(gs: Seq<RepositoryGroup>, id: Seq<char>, from: int) -> Option<int>
    decreases gs.len() - from,
{
    if from < 0 || from >= gs.len() {
        None
    } else if gs[from].id@ == id {
        Some(from)
    } else {
        first_group_with_id(gs, id, from + 1)
    }
}

/// First position `>= from` of a group with a worktree whose id is `id`.
pub open spec fn first_group_with_worktree(gs: Seq<RepositoryGroup>, id: Seq<char>, from: int) -> Option<int>
    decreases gs.len() - from,
{
    if from < 0 || from >= gs.len() {
        None
    } else if has_worktree(gs[from], id) {
        Some(from)
    } else {
        first_group_with_worktree(gs, id, from + 1)
    }
}

/// The group a request for `id` gets: the first group with that id, else
/// (a client holding a stale group id) the first group with a worktree of
/// that id.
pub open spec fn group_lookup(gs: Seq<RepositoryGroup>, id: Seq<char>) -> Option<int> {
    match first_group_with_id(gs, id, 0) {
        Some(i) => Some(i),
        None => first_group_with_worktree(gs, id, 0),
    }
}

fn group_has_worktree(g: &RepositoryGroup, id: &str) -> (r: bool)
    ensures
        r == has_worktree(*g, id@),
{
    let mut k: usize = 0;
    while k < g.worktrees.len()
        invariant
            k <= g.worktrees@.len(),
            forall|j: int| 0 <= j < k ==> (#[trigger] g.worktrees@[j]).id@ != id@,
        decreases g.worktrees@.len() - k,
    {
        if str_eq(g.worktrees[k].id.as_str(), id) {
            return true;
        }
        k = k + 1;
    }
    false
}

/// Finds the group `group_id`, falling back to the group that has a
/// worktree with that id; a `NotFound` error when neither exists.
pub fn find_group_with_fallback(groups: Vec<RepositoryGroup>, group_id: &str) -> (r: Result<RepositoryGroup, ApiError>)
    ensures
        match group_lookup(groups@, group_id@) {
            Some(i) => r matches Ok(g) && g == groups@[i],
            None => r matches Err(e) && e.code == ApiErrorCode::NotFound && e.message@ == "repository group "@
                + group_id@,
        },
{
    let mut gv = groups;
    let ghost gs = gv@;
    let mut i: usize = 0;
    while i < gv.len()
        invariant
            gs == gv@,
            gs == groups@,
            i <= gs.len(),
            first_group_with_id(gs, group_id@, i as int) == first_group_with_id(gs, group_id@, 0),
        decreases gs.len() - i,
    {
        if str_eq(gv[i].id.as_str(), group_id) {
            assert(first_group_with_id(gs, group_id@, i as int) == Some(i as int));
            let g = gv.swap_remove(i);
            assert(g == gs[i as int]);
            return Ok(g);
        }
        i = i + 1;
    }
    let mut j: usize = 0;
    while j < gv.len()
        invariant
            gs == gv@,
            gs == groups@,
            j <= gs.len(),
            first_group_with_id(gs, group_id@, 0) is None,
            first_group_with_worktree(gs, group_id@, j as int) == first_group_with_worktree(gs, group_id@, 0),
        decreases gs.len() - j,
    {
        if group_has_worktree(&gv[j], group_id) {
            assert(first_group_with_worktree(gs, group_id@, j as int) == Some(j as int));
            let g = gv.swap_remove(j);
            assert(g == gs[j as int]);
            return Ok(g);
        }
        j = j + 1;
    }
    let mut msg = String::from_str("repository group ");
    msg.append(group_id);
    Err(ApiError::not_found(msg))
}

/// Where a worktree's listing resumes.
#[derive(Debug)]
pub enum WorktreeOffset {
    /// Nothing of the worktree was shown yet.
    NotStarted,
    /// Every session of the worktree was shown.
    Exhausted,
    /// Resume after the session (`mtime_ms`, `sid`) in newest-first order.
    AfterMtime { mtime_ms: i64, sid: String },
}

/// Per-worktree resume points of a group listing.
#[derive(Debug)]
pub struct GroupCursor {
    pub per_worktree: Vec<(String, WorktreeOffset)>,
}

/// The offset recorded for worktree `id`: the first entry for it, or
/// `NotStarted`.
pub open spec fn offset_in(entries: Seq<(String, WorktreeOffset)>, id: Seq<char>) -> WorktreeOffset
    decreases entries.len(),
{
    if entries.len() == 0 {
        WorktreeOffset::NotStarted
    } else if entries[0].0@ == id {
        entries[0].1
    } else {
        offset_in(entries.drop_first(), id)
    }
}

/// A copy of an offset.
pub fn copy_offset(o: &WorktreeOffset) -> (r: WorktreeOffset)
    ensures
        r == *o || (r matches WorktreeOffset::AfterMtime { mtime_ms, sid } && *o matches WorktreeOffset::AfterMtime {
            mtime_ms: m2,
            sid: s2,
        } && mtime_ms == m2 && sid@ == s2@),
        offset_view(r) == offset_view(*o),
{
    match o {
        WorktreeOffset::NotStarted => WorktreeOffset::NotStarted,
        WorktreeOffset::Exhausted => WorktreeOffset::Exhausted,
        WorktreeOffset::AfterMtime { mtime_ms, sid } => WorktreeOffset::AfterMtime {
            mtime_ms: *mtime_ms,
            sid: String::from_str(sid.as_str()),
        },
    }
}

/// Mathematical reading of an offset.
pub enum OffsetView {
    NotStarted,
    Exhausted,
    AfterMtime(i64, Seq<char>),
}

/// The reading of `o`.
pub open spec fn offset_view(o: WorktreeOffset) -> OffsetView {
    match o {
        WorktreeOffset::NotStarted => OffsetView::NotStarted,
        WorktreeOffset::Exhausted => OffsetView::Exhausted,
        WorktreeOffset::AfterMtime { mtime_ms, sid } => OffsetView::AfterMtime(mtime_ms, sid@),
    }
}

/// The offset of worktree `id` in `cursor` (`NotStarted` when absent).
pub fn offset_for(cursor: &GroupCursor, id: &str) -> (r: WorktreeOffset)
    ensures
        offset_view(r) == offset_view(offset_in(cursor.per_worktree@, id@)),
{
    let es = &cursor.per_worktree;
    let mut k: usize = 0;
    assert(es@.skip(0) =~= es@);
    while k < es.len()
        invariant
            k <= es@.len(),
            es@ == cursor.per_worktree@,
            offset_in(es@.skip(k as int), id@) == offset_in(es@, id@),
        decreases es@.len() - k,
    {
        assert(es@.skip(k as int)[0] == es@[k as int]);
        assert(es@.skip(k as int).drop_first() =~= es@.skip(k + 1));
        if str_eq(es[k].0.as_str(), id) {
            return copy_offset(&es[k].1);
        }
        k = k + 1;
    }
    WorktreeOffset::NotStarted
}

/// A session of a worktree listing: its id and modification time.
#[derive(Debug)]
pub struct SessionRef {
    pub id: String,
    pub last_modified: i64,
}

/// Session `a` comes before `b` newest first: later modification first,
/// and on equal times the smaller id first.
pub open spec fn comes_before(am: i64, aid: Seq<char>, bm: i64, bid: Seq<char>) -> bool {
    am > bm || (am == bm && lex_lt(aid, bid))
}

/// First position of `ss` strictly after the session (`m`, `sid`) in
/// newest-first order, or the length when there is none.
pub open spec fn resume_index(ss: Seq<SessionRef>, m: i64, sid: Seq<char>, from: int) -> int
    decreases ss.len() - from,
{
    if from < 0 || from >= ss.len() {
        ss.len() as int
    } else if comes_before(m, sid, ss[from].last_modified, ss[from].id@) {
        from
    } else {
        resume_index(ss, m, sid, from + 1)
    }
}

/// The sessions listed for a worktree (none when it was not listed).
pub open spec fn listed(l: Option<Vec<SessionRef>>) -> Seq<SessionRef> {
    match l {
        Some(v) => v@,
        None => Seq::empty(),
    }
}

/// Start of worktree `w` for this page: `(index, exhausted)`.
pub open spec fn start_of(o: WorktreeOffset, ss: Seq<SessionRef>) -> (usize, bool) {
    match o {
        WorktreeOffset::NotStarted => (0, false),
        WorktreeOffset::Exhausted => (0, true),
        WorktreeOffset::AfterMtime { mtime_ms, sid } => (resume_index(ss, mtime_ms, sid@, 0) as usize, false),
    }
}

fn resume_position(ss: &[SessionRef], m: i64, sid: &str) -> (r: usize)
    ensures
        r as int == resume_index(ss@, m, sid@, 0),
{
    let mut k: usize = 0;
    while k < ss.len()
        invariant
            k <= ss@.len(),
            resume_index(ss@, m, sid@, k as int) == resume_index(ss@, m, sid@, 0),
        decreases ss@.len() - k,
    {
        if ss[k].last_modified < m || (ss[k].last_modified == m && str_lt(sid, ss[k].id.as_str())) {
            return k;
        }
        k = k + 1;
    }
    k
}

/// Where each worktree's listing starts on this page, in worktree order.
pub fn resolve_cursor_indices(worktrees: &[Worktree], cursor: &GroupCursor, wt_sessions: &[Option<Vec<SessionRef>>])
    -> (r: Vec<(usize, bool)>)
    requires
        wt_sessions@.len() == worktrees@.len(),
    ensures
        r@.len() == worktrees@.len(),
        forall|i: int| 0 <= i < worktrees@.len() ==> #[trigger] r@[i] == start_of(
            offset_in(cursor.per_worktree@, worktrees@[i].id@),
            listed(wt_sessions@[i]),
        ),
{
    let mut out: Vec<(usize, bool)> = Vec::new();
    let mut i: usize = 0;
    while i < worktrees.len()
        invariant
            i <= worktrees@.len(),
            wt_sessions@.len() == worktrees@.len(),
            out@.len() == i,
            forall|k: int| 0 <= k < i ==> #[trigger] out@[k] == start_of(
                offset_in(cursor.per_worktree@, worktrees@[k].id@),
                listed(wt_sessions@[k]),
            ),
        decreases worktrees@.len() - i,
    {
        let o = offset_for(cursor, worktrees[i].id.as_str());
        let entry = match o {
            WorktreeOffset::NotStarted => (0, false),
            WorktreeOffset::Exhausted => (0, true),
            WorktreeOffset::AfterMtime { mtime_ms, sid } => {
                let idx = match &wt_sessions[i] {
                    Some(v) => resume_position(v.as_slice(), mtime_ms, sid.as_str()),
                    None => {
                        assert(listed(wt_sessions@[i as int]).len() == 0);
                        0
                    },
                };
                (idx, false)
            },
        };
        out.push(entry);
        i = i + 1;
    }
    out
}

/// The sessions of every worktree, in worktree order.
pub open spec fn lists_of(ws: Seq<Option<Vec<SessionRef>>>) -> Seq<Seq<SessionRef>> {
    ws.map_values(|l: Option<Vec<SessionRef>>| listed(l))
}

/// Worktree `w` still has a session to offer at position `pos[w]`.
pub open spec fn is_candidate(ls: Seq<Seq<SessionRef>>, ex: Seq<bool>, pos: Seq<int>, w: int) -> bool {
    0 <= w < ls.len() && w < ex.len() && w < pos.len() && !ex[w] && 0 <= pos[w] < ls[w].len()
}

/// The head of worktree `a` comes before the head of worktree `b`.
pub open spec fn head_before(ls: Seq<Seq<SessionRef>>, pos: Seq<int>, a: int, b: int) -> bool {
    comes_before(
        ls[a][pos[a]].last_modified,
        ls[a][pos[a]].id@,
        ls[b][pos[b]].last_modified,
        ls[b][pos[b]].id@,
    )
}

/// The worktree among the first `n` whose head comes first (the lowest
/// such worktree on a tie).
pub open spec fn best_upto(ls: Seq<Seq<SessionRef>>, ex: Seq<bool>, pos: Seq<int>, n: int) -> Option<int>
    decreases n,
{
    if n <= 0 {
        None
    } else {
        let b = best_upto(ls, ex, pos, n - 1);
        if is_candidate(ls, ex, pos, n - 1) && (b is None || head_before(ls, pos, n - 1, b->0)) {
            Some(n - 1)
        } else {
            b
        }
    }
}

/// Up to `k` more entries of the newest-first merge from positions `pos`,
/// as (worktree, position) pairs.
pub open spec fn merge_from(ls: Seq<Seq<SessionRef>>, ex: Seq<bool>, pos: Seq<int>, k: nat) -> Seq<(int, int)>
    decreases k,
{
    if k == 0 {
        Seq::empty()
    } else {
        match best_upto(ls, ex, pos, ls.len() as int) {
            None => Seq::empty(),
            Some(w) => seq![(w, pos[w])] + merge_from(ls, ex, pos.update(w, pos[w] + 1), (k - 1) as nat),
        }
    }
}

/// The positions after taking up to `k` entries of the merge.
pub open spec fn merge_positions(ls: Seq<Seq<SessionRef>>, ex: Seq<bool>, pos: Seq<int>, k: nat) -> Seq<int>
    decreases k,
{
    if k == 0 {
        pos
    } else {
        match best_upto(ls, ex, pos, ls.len() as int) {
            None => pos,
            Some(w) => merge_positions(ls, ex, pos.update(w, pos[w] + 1), (k - 1) as nat),
        }
    }
}

/// Start positions and exhaustion flags of `starts`.
pub open spec fn start_positions(starts: Seq<(usize, bool)>) -> Seq<int> {
    starts.map_values(|p: (usize, bool)| p.0 as int)
}

/// Exhaustion flags of `starts`.
pub open spec fn start_flags(starts: Seq<(usize, bool)>) -> Seq<bool> {
    starts.map_values(|p: (usize, bool)| p.1)
}

proof fn lemma_best_is_candidate(ls: Seq<Seq<SessionRef>>, ex: Seq<bool>, pos: Seq<int>, n: int)
    ensures
        best_upto(ls, ex, pos, n) matches Some(w) ==> 0 <= w < n && is_candidate(ls, ex, pos, w),
    decreases n,
{
    if n > 0 {
        lemma_best_is_candidate(ls, ex, pos, n - 1);
    }
}

fn list_len(ws: &[Option<Vec<SessionRef>>], w: usize) -> (r: usize)
    requires
        w < ws@.len(),
    ensures
        r as int == listed(ws@[w as int]).len(),
{
    match &ws[w] {
        Some(v) => v.len(),
        None => 0,
    }
}

fn head_key<'a>(ws: &'a [Option<Vec<SessionRef>>], w: usize, p: usize) -> (r: (i64, &'a str))
    requires
        w < ws@.len(),
        p < listed(ws@[w as int]).len(),
    ensures
        r.0 == listed(ws@[w as int])[p as int].last_modified,
        r.1@ == listed(ws@[w as int])[p as int].id@,
{
    match &ws[w] {
        Some(v) => (v[p].last_modified, v[p].id.as_str()),
        None => (0, ""),
    }
}

/// Pairs of the page as integers.
pub open spec fn page_view(page: Seq<(usize, usize)>) -> Seq<(int, int)> {
    page.map_values(|e: (usize, usize)| (e.0 as int, e.1 as int))
}

/// Positions as integers.
pub open spec fn positions_view(pos: Seq<usize>) -> Seq<int> {
    pos.map_values(|p: usize| p as int)
}

/// Merges the worktrees' session lists newest first into a page of at most
/// `page_size` entries, each worktree resuming at its start position and
/// exhausted worktrees left out. Returns the page as (worktree, position)
/// pairs and every worktree's position after it.
pub fn merge_group_page(wt_sessions: &[Option<Vec<SessionRef>>], starts: &[(usize, bool)], page_size: usize) -> (r: (
    Vec<(usize, usize)>,
    Vec<usize>,
))
    requires
        starts@.len() == wt_sessions@.len(),
    ensures
        page_view(r.0@) == merge_from(
            lists_of(wt_sessions@),
            start_flags(starts@),
            start_positions(starts@),
            page_size as nat,
        ),
        positions_view(r.1@) == merge_positions(
            lists_of(wt_sessions@),
            start_flags(starts@),
            start_positions(starts@),
            page_size as nat,
        ),
{
    let ghost ls = lists_of(wt_sessions@);
    let ghost ex = start_flags(starts@);
    let ghost pos0 = start_positions(starts@);
    let n = wt_sessions.len();
    let mut pos: Vec<usize> = Vec::new();
    let mut i: usize = 0;
    while i < n
        invariant
            n == wt_sessions@.len(),
            starts@.len() == n,
            i <= n,
            positions_view(pos@) == pos0.take(i as int),
            pos0 == start_positions(starts@),
        decreases n - i,
    {
        let ghost before = positions_view(pos@);
        assert(pos0[i as int] == starts@[i as int].0 as int);
        pos.push(starts[i].0);
        assert(positions_view(pos@) =~= before.push(starts@[i as int].0 as int));
        i = i + 1;
        assert(positions_view(pos@) =~= pos0.take(i as int));
    }
    assert(pos0.take(n as int) =~= pos0);
    let mut page: Vec<(usize, usize)> = Vec::new();
    let mut done = false;
    while !done && page.len() < page_size
        invariant
            n == wt_sessions@.len(),
            starts@.len() == n,
            ls == lists_of(wt_sessions@),
            ex == start_flags(starts@),
            pos0 == start_positions(starts@),
            pos@.len() == n,
            page@.len() <= page_size,
            page_view(page@) + merge_from(ls, ex, positions_view(pos@), (page_size - page@.len()) as nat)
                == merge_from(ls, ex, pos0, page_size as nat),
            merge_positions(ls, ex, positions_view(pos@), (page_size - page@.len()) as nat)
                == merge_positions(ls, ex, pos0, page_size as nat),
            done ==> best_upto(ls, ex, positions_view(pos@), n as int) is None,
        decreases page_size - page@.len() + (if done { 0int } else { 1int }),
    {
        let ghost cur = positions_view(pos@);
        let mut best: Option<usize> = None;
        let mut w: usize = 0;
        while w < n
            invariant
                n == wt_sessions@.len(),
                starts@.len() == n,
                ls == lists_of(wt_sessions@),
                ex == start_flags(starts@),
                pos@.len() == n,
                cur == positions_view(pos@),
                w <= n,
                match best {
                    None => best_upto(ls, ex, cur, w as int) is None,
                    Some(b) => best_upto(ls, ex, cur, w as int) == Some(b as int),
                },
            decreases n - w,
        {
            proof {
                lemma_best_is_candidate(ls, ex, cur, w as int);
                assert(ls[w as int] == listed(wt_sessions@[w as int]));
                assert(ex[w as int] == starts@[w as int].1);
            }
            let len_w = list_len(wt_sessions, w);
            if !starts[w].1 && pos[w] < len_w {
                let take = match best {
                    None => true,
                    Some(b) => {
                        proof {
                            assert(ls[b as int] == listed(wt_sessions@[b as int]));
                        }
                        let (wm, wid) = head_key(wt_sessions, w, pos[w]);
                        let (bm, bid) = head_key(wt_sessions, b, pos[b]);
                        wm > bm || (wm == bm && str_lt(wid, bid))
                    },
                };
                if take {
                    best = Some(w);
                }
            }
            w = w + 1;
        }
        match best {
            None => {
                done = true;
            },
            Some(b) => {
                proof {
                    lemma_best_is_candidate(ls, ex, cur, n as int);
                    assert(ls[b as int] == listed(wt_sessions@[b as int]));
                }
                let len_b = list_len(wt_sessions, b);
                let p = pos[b];
                let ghost before = page_view(page@);
                page.push((b, p));
                pos.set(b, p + 1);
                proof {
                    let k = (page_size - (page@.len() - 1)) as nat;
                    assert(positions_view(pos@) =~= cur.update(b as int, cur[b as int] + 1));
                    assert(merge_from(ls, ex, cur, k) == seq![(b as int, cur[b as int])] + merge_from(
                        ls,
                        ex,
                        cur.update(b as int, cur[b as int] + 1),
                        (k - 1) as nat,
                    ));
                    assert(page_view(page@) =~= before.push((b as int, p as int)));
                    assert(page_view(page@) + merge_from(ls, ex, positions_view(pos@), (page_size - page@.len()) as nat)
                        =~= before + merge_from(ls, ex, cur, k));
                }
            },
        }
    }
    proof {
        let k = (page_size - page@.len()) as nat;
        if k > 0 {
            assert(done);
        }
        assert(merge_from(ls, ex, positions_view(pos@), k) =~= Seq::<(int, int)>::empty());
        assert(page_view(page@) =~= page_view(page@) + merge_from(ls, ex, positions_view(pos@), k));
    }
    (page, pos)
}

/// The offset recorded for one worktree in the next cursor, and whether
/// the worktree still has sessions to show: an exhausted worktree stays
/// exhausted; a worktree whose listing failed keeps its old offset; one
/// that gave sessions to this page resumes after the last of them, or is
/// exhausted when none are left; one that gave none keeps its offset
/// unless it has nothing left.
pub open spec fn next_offset(o: WorktreeOffset, start: (usize, bool), failed: bool, fin: int, ss: Seq<SessionRef>) -> (
    OffsetView,
    bool,
) {
    if start.1 {
        (OffsetView::Exhausted, false)
    } else if failed {
        (offset_view(o), true)
    } else if fin != start.0 {
        if fin >= ss.len() {
            (OffsetView::Exhausted, false)
        } else {
            (OffsetView::AfterMtime(ss[fin - 1].last_modified, ss[fin - 1].id@), true)
        }
    } else if start.0 >= ss.len() {
        (OffsetView::Exhausted, false)
    } else {
        (offset_view(o), true)
    }
}

/// The cursor of the next page, or `None` when every worktree is
/// exhausted. `finals` are the positions after this page and `failed`
/// marks the worktrees whose listing failed.
pub fn next_group_cursor(
    worktrees: &[Worktree],
    cursor: &GroupCursor,
    starts: &[(usize, bool)],
    finals: &[usize],
    wt_sessions: &[Option<Vec<SessionRef>>],
    failed: &[bool],
) -> (r: Option<GroupCursor>)
    requires
        starts@.len() == worktrees@.len(),
        finals@.len() == worktrees@.len(),
        wt_sessions@.len() == worktrees@.len(),
        failed@.len() == worktrees@.len(),
        forall|i: int| 0 <= i < worktrees@.len() && finals@[i] != starts@[i].0 ==> 0 < #[trigger] finals@[i] <= listed(
            wt_sessions@[i],
        ).len(),
    ensures
        r is None <==> forall|i: int| 0 <= i < worktrees@.len() ==> !(#[trigger] next_offset(
            offset_in(cursor.per_worktree@, worktrees@[i].id@),
            starts@[i],
            failed@[i],
            finals@[i] as int,
            listed(wt_sessions@[i]),
        )).1,
        r matches Some(c) ==> c.per_worktree@.len() == worktrees@.len() && forall|i: int|
            0 <= i < worktrees@.len() ==> (#[trigger] c.per_worktree@[i]).0@ == worktrees@[i].id@ && offset_view(
                c.per_worktree@[i].1,
            ) == next_offset(
                offset_in(cursor.per_worktree@, worktrees@[i].id@),
                starts@[i],
                failed@[i],
                finals@[i] as int,
                listed(wt_sessions@[i]),
            ).0,
        r is None <==> forall|i: int| 0 <= i < worktrees@.len() ==> (#[trigger] starts@[i]).1 || (!failed@[i]
            && finals@[i] >= listed(wt_sessions@[i]).len()),
{
    let n = worktrees.len();
    let mut entries: Vec<(String, WorktreeOffset)> = Vec::new();
    let mut any_left = false;
    let mut i: usize = 0;
    while i < n
        invariant
            n == worktrees@.len(),
            starts@.len() == n,
            finals@.len() == n,
            wt_sessions@.len() == n,
            failed@.len() == n,
            forall|j: int| 0 <= j < n && finals@[j] != starts@[j].0 ==> 0 < #[trigger] finals@[j] <= listed(
                wt_sessions@[j],
            ).len(),
            i <= n,
            entries@.len() == i,
            any_left == exists|j: int| 0 <= j < i && (#[trigger] next_offset(
                offset_in(cursor.per_worktree@, worktrees@[j].id@),
                starts@[j],
                failed@[j],
                finals@[j] as int,
                listed(wt_sessions@[j]),
            )).1,
            forall|j: int| 0 <= j < i ==> (#[trigger] entries@[j]).0@ == worktrees@[j].id@ && offset_view(entries@[j].1)
                == next_offset(
                offset_in(cursor.per_worktree@, worktrees@[j].id@),
                starts@[j],
                failed@[j],
                finals@[j] as int,
                listed(wt_sessions@[j]),
            ).0,
        decreases n - i,
    {
        let ghost expected = next_offset(
            offset_in(cursor.per_worktree@, worktrees@[i as int].id@),
            starts@[i as int],
            failed@[i as int],
            finals@[i as int] as int,
            listed(wt_sessions@[i as int]),
        );
        let (start_idx, exhausted) = starts[i];
        let len = list_len(wt_sessions, i);
        let fin = finals[i];
        let (offset, left) = if exhausted {
            (WorktreeOffset::Exhausted, false)
        } else if failed[i] {
            (offset_for(cursor, worktrees[i].id.as_str()), true)
        } else if fin != start_idx {
            if fin >= len {
                (WorktreeOffset::Exhausted, false)
            } else {
                let (m, sid) = head_key(wt_sessions, i, fin - 1);
                (WorktreeOffset::AfterMtime { mtime_ms: m, sid: String::from_str(sid) }, true)
            }
        } else if start_idx >= len {
            (WorktreeOffset::Exhausted, false)
        } else {
            (offset_for(cursor, worktrees[i].id.as_str()), true)
        };
        assert(offset_view(offset) == expected.0 && left == expected.1);
        entries.push((String::from_str(worktrees[i].id.as_str()), offset));
        any_left = any_left || left;
        i = i + 1;
    }
    proof {
        assert forall|j: int| 0 <= j < n implies (#[trigger] next_offset(
            offset_in(cursor.per_worktree@, worktrees@[j].id@),
            starts@[j],
            failed@[j],
            finals@[j] as int,
            listed(wt_sessions@[j]),
        )).1 == !(starts@[j].1 || (!failed@[j] && finals@[j] >= listed(wt_sessions@[j]).len())) by {
            crate::laws::law_worktree_with_sessions_left_continues(
                offset_in(cursor.per_worktree@, worktrees@[j].id@),
                starts@[j],
                failed@[j],
                finals@[j] as int,
                listed(wt_sessions@[j]),
            );
        }
        let done_a = forall|j: int| 0 <= j < n ==> !(#[trigger] next_offset(
            offset_in(cursor.per_worktree@, worktrees@[j].id@),
            starts@[j],
            failed@[j],
            finals@[j] as int,
            listed(wt_sessions@[j]),
        )).1;
        let done_b = forall|j: int| 0 <= j < n ==> (#[trigger] starts@[j]).1 || (!failed@[j] && finals@[j] >= listed(
            wt_sessions@[j],
        ).len());
        if done_a {
            assert forall|j: int| 0 <= j < n implies (#[trigger] starts@[j]).1 || (!failed@[j] && finals@[j]
                >= listed(wt_sessions@[j]).len()) by {
                assert(!next_offset(
                    offset_in(cursor.per_worktree@, worktrees@[j].id@),
                    starts@[j],
                    failed@[j],
                    finals@[j] as int,
                    listed(wt_sessions@[j]),
                ).1);
            }
        }
        if done_b {
            assert forall|j: int| 0 <= j < n implies !(#[trigger] next_offset(
                offset_in(cursor.per_worktree@, worktrees@[j].id@),
                starts@[j],
                failed@[j],
                finals@[j] as int,
                listed(wt_sessions@[j]),
            )).1 by {
                assert(starts@[j].1 || (!failed@[j] && finals@[j] >= listed(wt_sessions@[j]).len()));
            }
        }
        assert(done_a == done_b);
    }
    if any_left {
        Some(GroupCursor { per_worktree: entries })
    } else {
        None
    }
}

/// Worktree `i` takes part in this page: its cursor is not exhausted.
pub open spec fn is_active(cursor: Seq<(String, WorktreeOffset)>, wts: Seq<Worktree>, i: int) -> bool {
    !(offset_in(cursor, wts[i].id@) is Exhausted)
}

/// A copy of session `s` with modification time `m` in worktree `w`
/// outranks one with time `m2` in worktree `w2`: later first, then the
/// smaller worktree id.
pub open spec fn outranks(m: i64, w: Seq<char>, m2: i64, w2: Seq<char>) -> bool {
    m > m2 || (m == m2 && lex_lt(w, w2))
}

/// Session `k` of worktree `j` is an active copy of `sid`.
pub open spec fn is_copy(
    cursor: Seq<(String, WorktreeOffset)>,
    wts: Seq<Worktree>,
    ls: Seq<Seq<SessionRef>>,
    sid: Seq<char>,
    j: int,
    k: int,
) -> bool {
    0 <= j < wts.len() && j < ls.len() && is_active(cursor, wts, j) && 0 <= k < ls[j].len() && ls[j][k].id@ == sid
}

/// No active copy of `sid` outranks copy `k` of worktree `j`.
pub open spec fn unbeaten(
    cursor: Seq<(String, WorktreeOffset)>,
    wts: Seq<Worktree>,
    ls: Seq<Seq<SessionRef>>,
    sid: Seq<char>,
    j: int,
    k: int,
) -> bool {
    forall|j2: int, k2: int|
        #![trigger ls[j2][k2]]
        is_copy(cursor, wts, ls, sid, j2, k2) ==> !outranks(
            ls[j2][k2].last_modified,
            wts[j2].id@,
            ls[j][k].last_modified,
            wts[j].id@,
        )
}

/// The worktree `wid` holds the copy of `sid` that is kept: the most
/// recently modified one, the smaller worktree id on a tie.
pub open spec fn keeps(
    cursor: Seq<(String, WorktreeOffset)>,
    wts: Seq<Worktree>,
    ls: Seq<Seq<SessionRef>>,
    sid: Seq<char>,
    wid: Seq<char>,
) -> bool {
    exists|j: int, k: int|
        #![trigger ls[j][k], wts[j]]
        is_copy(cursor, wts, ls, sid, j, k) && wts[j].id@ == wid && unbeaten(cursor, wts, ls, sid, j, k)
}

/// The sessions of `ss` whose copy in worktree `wid` is the one kept, in
/// order.
pub open spec fn kept_copies(
    ss: Seq<SessionRef>,
    cursor: Seq<(String, WorktreeOffset)>,
    wts: Seq<Worktree>,
    ls: Seq<Seq<SessionRef>>,
    wid: Seq<char>,
) -> Seq<SessionRef>
    decreases ss.len(),
{
    if ss.len() == 0 {
        Seq::empty()
    } else {
        (if keeps(cursor, wts, ls, ss[0].id@, wid) {
            seq![ss[0]]
        } else {
            Seq::empty()
        }) + kept_copies(ss.drop_first(), cursor, wts, ls, wid)
    }
}

proof fn lemma_outranks_transitive(m1: i64, w1: Seq<char>, m2: i64, w2: Seq<char>, m3: i64, w3: Seq<char>)
    requires
        outranks(m1, w1, m2, w2),
        outranks(m2, w2, m3, w3),
    ensures
        outranks(m1, w1, m3, w3),
{
    if m1 == m2 && m2 == m3 {
        lemma_lex_transitive(w1, w2, w3);
    }
}

proof fn lemma_outranks_total(m1: i64, w1: Seq<char>, m2: i64, w2: Seq<char>)
    requires
        w1 != w2,
    ensures
        outranks(m1, w1, m2, w2) || outranks(m2, w2, m1, w1),
{
    lemma_lex_total(w1, w2);
}

/// The copy of `sid` that outranks every other, as (worktree, position).
fn best_copy(
    ws: &[Option<Vec<SessionRef>>],
    wts: &[Worktree],
    cursor: &GroupCursor,
    active: &[bool],
    sid: &str,
) -> (r: Option<(usize, usize)>)
    requires
        ws@.len() == wts@.len(),
        active@.len() == wts@.len(),
        forall|i: int| 0 <= i < wts@.len() ==> #[trigger] active@[i] == is_active(cursor.per_worktree@, wts@, i),
    ensures
        match r {
            Some((j, k)) => is_copy(cursor.per_worktree@, wts@, lists_of(ws@), sid@, j as int, k as int)
                && unbeaten(cursor.per_worktree@, wts@, lists_of(ws@), sid@, j as int, k as int),
            None => forall|j: int, k: int|
                #![trigger lists_of(ws@)[j][k]]
                !is_copy(cursor.per_worktree@, wts@, lists_of(ws@), sid@, j, k),
        },
{
    let ghost cs = cursor.per_worktree@;
    let ghost ls = lists_of(ws@);
    let n = ws.len();
    let mut best: Option<(usize, usize)> = None;
    let mut j: usize = 0;
    while j < n
        invariant
            n == ws@.len(),
            n == wts@.len(),
            active@.len() == n,
            cs == cursor.per_worktree@,
            ls == lists_of(ws@),
            forall|i: int| 0 <= i < wts@.len() ==> #[trigger] active@[i] == is_active(cs, wts@, i),
            j <= n,
            match best {
                Some((bj, bk)) => is_copy(cs, wts@, ls, sid@, bj as int, bk as int) && forall|j2: int, k2: int|
                    #![trigger ls[j2][k2]]
                    j2 < j && is_copy(cs, wts@, ls, sid@, j2, k2) ==> !outranks(
                        ls[j2][k2].last_modified,
                        wts@[j2].id@,
                        ls[bj as int][bk as int].last_modified,
                        wts@[bj as int].id@,
                    ),
                None => forall|j2: int, k2: int|
                    #![trigger ls[j2][k2]]
                    j2 < j ==> !is_copy(cs, wts@, ls, sid@, j2, k2),
            },
        decreases n - j,
    {
        proof {
            assert(ls[j as int] == listed(ws@[j as int]));
        }
        if active[j] {
            let len = list_len(ws, j);
            let mut k: usize = 0;
            while k < len
                invariant
                    n == ws@.len(),
                    n == wts@.len(),
                    active@.len() == n,
                    cs == cursor.per_worktree@,
                    ls == lists_of(ws@),
                    j < n,
                    is_active(cs, wts@, j as int),
                    len == ls[j as int].len(),
                    k <= len,
                    match best {
                        Some((bj, bk)) => is_copy(cs, wts@, ls, sid@, bj as int, bk as int) && forall|j2: int, k2: int|
                            #![trigger ls[j2][k2]]
                            (j2 < j || (j2 == j && k2 < k)) && is_copy(cs, wts@, ls, sid@, j2, k2) ==> !outranks(
                                ls[j2][k2].last_modified,
                                wts@[j2].id@,
                                ls[bj as int][bk as int].last_modified,
                                wts@[bj as int].id@,
                            ),
                        None => forall|j2: int, k2: int|
                            #![trigger ls[j2][k2]]
                            (j2 < j || (j2 == j && k2 < k)) ==> !is_copy(cs, wts@, ls, sid@, j2, k2),
                    },
                decreases len - k,
            {
                let (m, id) = head_key(ws, j, k);
                if str_eq(id, sid) {
                    let replace = match best {
                        None => true,
                        Some((bj, bk)) => {
                            proof {
                                assert(ls[bj as int] == listed(ws@[bj as int]));
                            }
                            let (bm, _) = head_key(ws, bj, bk);
                            m > bm || (m == bm && str_lt(wts[j].id.as_str(), wts[bj].id.as_str()))
                        },
                    };
                    if replace {
                        proof {
                            match best {
                                Some((bj, bk)) => {
                                    assert forall|j2: int, k2: int|
                                        #![trigger ls[j2][k2]]
                                        (j2 < j || (j2 == j && k2 < k + 1)) && is_copy(cs, wts@, ls, sid@, j2, k2)
                                        implies !outranks(
                                        ls[j2][k2].last_modified,
                                        wts@[j2].id@,
                                        ls[j as int][k as int].last_modified,
                                        wts@[j as int].id@,
                                    ) by {
                                        if j2 == j && k2 == k {
                                            lemma_lex_irreflexive(wts@[j as int].id@);
                                        } else if outranks(
                                            ls[j2][k2].last_modified,
                                            wts@[j2].id@,
                                            ls[j as int][k as int].last_modified,
                                            wts@[j as int].id@,
                                        ) {
                                            lemma_outranks_transitive(
                                                ls[j2][k2].last_modified,
                                                wts@[j2].id@,
                                                ls[j as int][k as int].last_modified,
                                                wts@[j as int].id@,
                                                ls[bj as int][bk as int].last_modified,
                                                wts@[bj as int].id@,
                                            );
                                        }
                                    }
                                },
                                None => {
                                    assert forall|j2: int, k2: int|
                                        #![trigger ls[j2][k2]]
                                        (j2 < j || (j2 == j && k2 < k + 1)) && is_copy(cs, wts@, ls, sid@, j2, k2)
                                        implies !outranks(
                                        ls[j2][k2].last_modified,
                                        wts@[j2].id@,
                                        ls[j as int][k as int].last_modified,
                                        wts@[j as int].id@,
                                    ) by {
                                        lemma_lex_irreflexive(wts@[j as int].id@);
                                    }
                                },
                            }
                        }
                        best = Some((j, k));
                    }
                }
                k = k + 1;
            }
        } else {
            proof {
                assert forall|j2: int, k2: int| j2 == j implies !#[trigger] is_copy(cs, wts@, ls, sid@, j2, k2) by {}
            }
        }
        j = j + 1;
    }
    best
}

proof fn lemma_keeps_best(
    cs: Seq<(String, WorktreeOffset)>,
    wts: Seq<Worktree>,
    ls: Seq<Seq<SessionRef>>,
    sid: Seq<char>,
    bj: int,
    bk: int,
    wid: Seq<char>,
)
    requires
        is_copy(cs, wts, ls, sid, bj, bk),
        unbeaten(cs, wts, ls, sid, bj, bk),
    ensures
        keeps(cs, wts, ls, sid, wid) == (wts[bj].id@ == wid),
{
    if keeps(cs, wts, ls, sid, wid) {
        let (j, k) = choose|j: int, k: int|
            #![trigger ls[j][k], wts[j]]
            is_copy(cs, wts, ls, sid, j, k) && wts[j].id@ == wid && unbeaten(cs, wts, ls, sid, j, k);
        if wts[bj].id@ != wid {
            lemma_outranks_total(ls[j][k].last_modified, wts[j].id@, ls[bj][bk].last_modified, wts[bj].id@);
            assert(!outranks(ls[bj][bk].last_modified, wts[bj].id@, ls[j][k].last_modified, wts[j].id@));
            assert(!outranks(ls[j][k].last_modified, wts[j].id@, ls[bj][bk].last_modified, wts[bj].id@));
        }
    }
    if wts[bj].id@ == wid {
        assert(is_copy(cs, wts, ls, sid, bj, bk) && wts[bj].id@ == wid && unbeaten(cs, wts, ls, sid, bj, bk));
    }
}

/// The sessions a worktree keeps: all of them when it is not active,
/// else those whose kept copy is in this worktree.
pub open spec fn deduped(
    cs: Seq<(String, WorktreeOffset)>,
    wts: Seq<Worktree>,
    ls: Seq<Seq<SessionRef>>,
    i: int,
) -> Seq<SessionRef> {
    if is_active(cs, wts, i) {
        kept_copies(ls[i], cs, wts, ls, wts[i].id@)
    } else {
        ls[i]
    }
}

fn keep_flags(
    ws: &[Option<Vec<SessionRef>>],
    cursor: &GroupCursor,
    worktrees: &[Worktree],
    active: &[bool],
    i: usize,
) -> (r: Vec<bool>)
    requires
        ws@.len() == worktrees@.len(),
        active@.len() == worktrees@.len(),
        i < ws@.len(),
        active@[i as int],
        forall|t: int| 0 <= t < worktrees@.len() ==> #[trigger] active@[t] == is_active(cursor.per_worktree@, worktrees@, t),
    ensures
        r@.len() == lists_of(ws@)[i as int].len(),
        forall|k: int| 0 <= k < r@.len() ==> #[trigger] r@[k] == keeps(
            cursor.per_worktree@,
            worktrees@,
            lists_of(ws@),
            lists_of(ws@)[i as int][k].id@,
            worktrees@[i as int].id@,
        ),
{
    let ghost ls = lists_of(ws@);
    let ghost cs = cursor.per_worktree@;
    proof {
        assert(ls[i as int] == listed(ws@[i as int]));
    }
    let len = list_len(ws, i);
    let mut flags: Vec<bool> = Vec::new();
    let mut k: usize = 0;
    while k < len
        invariant
            ws@.len() == worktrees@.len(),
            active@.len() == worktrees@.len(),
            i < ws@.len(),
            active@[i as int],
            forall|t: int| 0 <= t < worktrees@.len() ==> #[trigger] active@[t] == is_active(cs, worktrees@, t),
            ls == lists_of(ws@),
            cs == cursor.per_worktree@,
            len == ls[i as int].len(),
            k <= len,
            flags@.len() == k,
            forall|t: int| 0 <= t < k ==> #[trigger] flags@[t] == keeps(cs, worktrees@, ls, ls[i as int][t].id@, worktrees@[i as int].id@),
        decreases len - k,
    {
        let (_, id) = head_key(ws, i, k);
        proof {
            assert(is_copy(cs, worktrees@, ls, id@, i as int, k as int));
        }
        let keep = match best_copy(ws, worktrees, cursor, active, id) {
            Some((bj, bk)) => {
                proof {
                    lemma_keeps_best(cs, worktrees@, ls, id@, bj as int, bk as int, worktrees@[i as int].id@);
                }
                str_eq(worktrees[bj].id.as_str(), worktrees[i].id.as_str())
            },
            None => {
                assert(!is_copy(cs, worktrees@, ls, id@, i as int, k as int));
                false
            },
        };
        flags.push(keep);
        k = k + 1;
    }
    flags
}

/// Removes the repeated copies of a session across the active worktrees:
/// of all active copies of one session only those in the worktree holding
/// the most recently modified copy (the smaller worktree id on a tie) stay.
/// Worktrees whose cursor is exhausted, or that were not listed, are left
/// alone.
pub fn dedup_sessions_across_worktrees(
    wt_sessions: &mut Vec<Option<Vec<SessionRef>>>,
    cursor: &GroupCursor,
    worktrees: &[Worktree],
)
    requires
        old(wt_sessions)@.len() == worktrees@.len(),
    ensures
        final(wt_sessions)@.len() == old(wt_sessions)@.len(),
        forall|i: int|
            0 <= i < worktrees@.len() ==> (#[trigger] final(wt_sessions)@[i] is Some) == old(wt_sessions)@[i] is Some,
        forall|i: int|
            0 <= i < worktrees@.len() ==> #[trigger] listed(final(wt_sessions)@[i]) == deduped(
                cursor.per_worktree@,
                worktrees@,
                lists_of(old(wt_sessions)@),
                i,
            ),
{
    let ghost ws0 = wt_sessions@;
    let ghost ls = lists_of(ws0);
    let ghost cs = cursor.per_worktree@;
    let n = wt_sessions.len();
    let mut active: Vec<bool> = Vec::new();
    let mut i: usize = 0;
    while i < n
        invariant
            n == worktrees@.len(),
            i <= n,
            active@.len() == i,
            cs == cursor.per_worktree@,
            forall|k: int| 0 <= k < i ==> #[trigger] active@[k] == is_active(cs, worktrees@, k),
        decreases n - i,
    {
        let o = offset_for(cursor, worktrees[i].id.as_str());
        let a = match o {
            WorktreeOffset::Exhausted => false,
            _ => true,
        };
        active.push(a);
        i = i + 1;
    }
    let mut all_flags: Vec<Vec<bool>> = Vec::new();
    let mut i: usize = 0;
    while i < n
        invariant
            n == worktrees@.len(),
            n == wt_sessions@.len(),
            wt_sessions@ == ws0,
            ls == lists_of(ws0),
            cs == cursor.per_worktree@,
            active@.len() == n,
            forall|k: int| 0 <= k < n ==> #[trigger] active@[k] == is_active(cs, worktrees@, k),
            i <= n,
            all_flags@.len() == i,
            forall|t: int| 0 <= t < i && active@[t] ==> (#[trigger] all_flags@[t])@.len() == ls[t].len() && forall|k: int|
                0 <= k < ls[t].len() ==> #[trigger] all_flags@[t]@[k] == keeps(cs, worktrees@, ls, ls[t][k].id@, worktrees@[t].id@),
        decreases n - i,
    {
        if active[i] {
            let f = keep_flags(wt_sessions.as_slice(), cursor, worktrees, active.as_slice(), i);
            all_flags.push(f);
        } else {
            all_flags.push(Vec::new());
        }
        i = i + 1;
    }
    let mut i: usize = 0;
    while i < n
        invariant
            n == worktrees@.len(),
            n == wt_sessions@.len(),
            ls == lists_of(ws0),
            cs == cursor.per_worktree@,
            active@.len() == n,
            forall|k: int| 0 <= k < n ==> #[trigger] active@[k] == is_active(cs, worktrees@, k),
            all_flags@.len() == n,
            forall|t: int| 0 <= t < n && active@[t] ==> (#[trigger] all_flags@[t])@.len() == ls[t].len() && forall|k: int|
                0 <= k < ls[t].len() ==> #[trigger] all_flags@[t]@[k] == keeps(cs, worktrees@, ls, ls[t][k].id@, worktrees@[t].id@),
            ws0.len() == n,
            i <= n,
            forall|t: int| i <= t < n ==> #[trigger] wt_sessions@[t] == ws0[t],
            forall|t: int| 0 <= t < i ==> (#[trigger] wt_sessions@[t] is Some) == ws0[t] is Some,
            forall|t: int| 0 <= t < i ==> #[trigger] listed(wt_sessions@[t]) == deduped(cs, worktrees@, ls, t),
        decreases n - i,
    {
        proof {
            assert(ls[i as int] == listed(ws0[i as int]));
        }
        if active[i] {
            let mut slot: Option<Vec<SessionRef>> = None;
            wt_sessions.set_and_swap(i, &mut slot);
            match slot {
                Some(v) => {
                    let mut v = v;
                    let ghost orig = v@;
                    let mut out: Vec<SessionRef> = Vec::new();
                    let mut k: usize = 0;
                    assert(orig.skip(0) =~= orig);
                    while v.len() > 0
                        invariant
                            orig == ls[i as int],
                            k + v@.len() == orig.len(),
                            v@ == orig.skip(k as int),
                            i < n,
                            all_flags@.len() == n,
                            active@[i as int],
                            all_flags@[i as int]@.len() == orig.len(),
                            forall|k2: int| 0 <= k2 < orig.len() ==> #[trigger] all_flags@[i as int]@[k2] == keeps(
                                cs,
                                worktrees@,
                                ls,
                                orig[k2].id@,
                                worktrees@[i as int].id@,
                            ),
                            out@ + kept_copies(v@, cs, worktrees@, ls, worktrees@[i as int].id@) == kept_copies(
                                orig,
                                cs,
                                worktrees@,
                                ls,
                                worktrees@[i as int].id@,
                            ),
                        decreases v@.len(),
                    {
                        let ghost before = out@;
                        let ghost rest = v@;
                        let s = v.remove(0);
                        assert(rest.drop_first() =~= v@);
                        assert(s == orig[k as int]);
                        if all_flags[i][k] {
                            out.push(s);
                            assert(out@ + kept_copies(v@, cs, worktrees@, ls, worktrees@[i as int].id@) =~= before
                                + kept_copies(rest, cs, worktrees@, ls, worktrees@[i as int].id@));
                        } else {
                            assert(out@ + kept_copies(v@, cs, worktrees@, ls, worktrees@[i as int].id@) =~= before
                                + kept_copies(rest, cs, worktrees@, ls, worktrees@[i as int].id@));
                        }
                        k = k + 1;
                        assert(v@ =~= orig.skip(k as int));
                    }
                    assert(out@ =~= out@ + kept_copies(v@, cs, worktrees@, ls, worktrees@[i as int].id@));
                    wt_sessions.set(i, Some(out));
                },
                None => {
                    assert(kept_copies(ls[i as int], cs, worktrees@, ls, worktrees@[i as int].id@) =~= Seq::<SessionRef>::empty());
                    wt_sessions.set(i, None);
                },
            }
        }
        i = i + 1;
    }
}

proof fn lemma_merge_positions_bounds(ls: Seq<Seq<SessionRef>>, ex: Seq<bool>, pos: Seq<int>, k: nat)
    requires
        pos.len() == ls.len(),
        forall|w: int| 0 <= w < pos.len() ==> 0 <= #[trigger] pos[w],
    ensures
        merge_positions(ls, ex, pos, k).len() == pos.len(),
        forall|w: int|
            0 <= w < pos.len() ==> #[trigger] merge_positions(ls, ex, pos, k)[w] == pos[w] || (pos[w]
                < merge_positions(ls, ex, pos, k)[w] <= ls[w].len()),
    decreases k,
{
    if k > 0 {
        lemma_best_is_candidate(ls, ex, pos, ls.len() as int);
        match best_upto(ls, ex, pos, ls.len() as int) {
            None => {},
            Some(w) => {
                let p2 = pos.update(w, pos[w] + 1);
                lemma_merge_positions_bounds(ls, ex, p2, (k - 1) as nat);
                assert forall|v: int| 0 <= v < pos.len() implies #[trigger] merge_positions(ls, ex, pos, k)[v] == pos[v]
                    || (pos[v] < merge_positions(ls, ex, pos, k)[v] <= ls[v].len()) by {
                    assert(merge_positions(ls, ex, pos, k) == merge_positions(ls, ex, p2, (k - 1) as nat));
                    if v != w {
                        assert(p2[v] == pos[v]);
                    }
                }
            },
        }
    }
}

/// Exhaustion flags of the worktrees at the start of a page.
pub open spec fn plan_flags(
    cs: Seq<(String, WorktreeOffset)>,
    wts: Seq<Worktree>,
    ss: Seq<Option<Vec<SessionRef>>>,
) -> Seq<bool> {
    Seq::new(wts.len(), |i: int| start_of(offset_in(cs, wts[i].id@), listed(ss[i])).1)
}

/// Start positions of the worktrees at the start of a page.
pub open spec fn plan_positions(
    cs: Seq<(String, WorktreeOffset)>,
    wts: Seq<Worktree>,
    ss: Seq<Option<Vec<SessionRef>>>,
) -> Seq<int> {
    Seq::new(wts.len(), |i: int| start_of(offset_in(cs, wts[i].id@), listed(ss[i])).0 as int)
}

/// Offset and continuation of worktree `i` after a page of `k` entries.
pub open spec fn plan_next(
    cs: Seq<(String, WorktreeOffset)>,
    wts: Seq<Worktree>,
    ss: Seq<Option<Vec<SessionRef>>>,
    failed: Seq<bool>,
    k: nat,
    i: int,
) -> (OffsetView, bool) {
    next_offset(
        offset_in(cs, wts[i].id@),
        start_of(offset_in(cs, wts[i].id@), listed(ss[i])),
        failed[i],
        merge_positions(lists_of(ss), plan_flags(cs, wts, ss), plan_positions(cs, wts, ss), k)[i],
        listed(ss[i]),
    )
}

/// One page of a group listing: the page entries as (worktree, position)
/// pairs into `sessions`, the worktrees' session lists after
/// de-duplication, and the cursor of the next page.
pub struct GroupPagePlan {
    pub page: Vec<(usize, usize)>,
    pub sessions: Vec<Option<Vec<SessionRef>>>,
    pub next_cursor: Option<GroupCursor>,
}

/// Plans one page of a group listing from each worktree's sessions
/// (newest first, `None` for a worktree that was not listed): repeated
/// sessions are removed across the active worktrees, every worktree
/// resumes where `cursor` left it, the page takes the `page_size` newest
/// sessions, and the next cursor records where each worktree stopped.
pub fn plan_group_page(
    worktrees: &[Worktree],
    cursor: &GroupCursor,
    wt_sessions: Vec<Option<Vec<SessionRef>>>,
    failed: &[bool],
    page_size: usize,
) -> (r: GroupPagePlan)
    requires
        wt_sessions@.len() == worktrees@.len(),
        failed@.len() == worktrees@.len(),
    ensures
        r.sessions@.len() == worktrees@.len(),
        forall|i: int|
            0 <= i < worktrees@.len() ==> #[trigger] listed(r.sessions@[i]) == deduped(
                cursor.per_worktree@,
                worktrees@,
                lists_of(wt_sessions@),
                i,
            ),
        page_view(r.page@) == merge_from(
            lists_of(r.sessions@),
            plan_flags(cursor.per_worktree@, worktrees@, r.sessions@),
            plan_positions(cursor.per_worktree@, worktrees@, r.sessions@),
            page_size as nat,
        ),
        r.next_cursor is None <==> forall|i: int|
            0 <= i < worktrees@.len() ==> !(#[trigger] plan_next(
                cursor.per_worktree@,
                worktrees@,
                r.sessions@,
                failed@,
                page_size as nat,
                i,
            )).1,
        r.next_cursor matches Some(c) ==> c.per_worktree@.len() == worktrees@.len() && forall|i: int|
            0 <= i < worktrees@.len() ==> (#[trigger] c.per_worktree@[i]).0@ == worktrees@[i].id@ && offset_view(
                c.per_worktree@[i].1,
            ) == plan_next(cursor.per_worktree@, worktrees@, r.sessions@, failed@, page_size as nat, i).0,
{
    let mut sessions = wt_sessions;
    dedup_sessions_across_worktrees(&mut sessions, cursor, worktrees);
    let starts = resolve_cursor_indices(worktrees, cursor, sessions.as_slice());
    let (page, finals) = merge_group_page(sessions.as_slice(), starts.as_slice(), page_size);
    proof {
        let n = worktrees@.len();
        assert(start_flags(starts@) =~= plan_flags(cursor.per_worktree@, worktrees@, sessions@));
        assert(start_positions(starts@) =~= plan_positions(cursor.per_worktree@, worktrees@, sessions@));
        lemma_merge_positions_bounds(
            lists_of(sessions@),
            start_flags(starts@),
            start_positions(starts@),
            page_size as nat,
        );
        assert forall|i: int| 0 <= i < n && finals@[i] != starts@[i].0 implies 0 < #[trigger] finals@[i] <= listed(
            sessions@[i],
        ).len() by {
            assert(positions_view(finals@)[i] == finals@[i] as int);
            assert(start_positions(starts@)[i] == starts@[i].0 as int);
            assert(lists_of(sessions@)[i] == listed(sessions@[i]));
        }
    }
    let next_cursor = next_group_cursor(worktrees, cursor, starts.as_slice(), finals.as_slice(), sessions.as_slice(), failed);
    proof {
        assert forall|i: int| 0 <= i < worktrees@.len() implies #[trigger] plan_next(
            cursor.per_worktree@,
            worktrees@,
            sessions@,
            failed@,
            page_size as nat,
            i,
        ) == next_offset(
            offset_in(cursor.per_worktree@, worktrees@[i].id@),
            starts@[i],
            failed@[i],
            finals@[i] as int,
            listed(sessions@[i]),
        ) by {
            assert(positions_view(finals@)[i] == finals@[i] as int);
        }
        if next_cursor is Some {
            let i = choose|i: int| 0 <= i < worktrees@.len() && (#[trigger] next_offset(
                offset_in(cursor.per_worktree@, worktrees@[i].id@),
                starts@[i],
                failed@[i],
                finals@[i] as int,
                listed(sessions@[i]),
            )).1;
            assert(plan_next(cursor.per_worktree@, worktrees@, sessions@, failed@, page_size as nat, i).1);
        } else {
            assert forall|i: int| 0 <= i < worktrees@.len() implies !(#[trigger] plan_next(
                cursor.per_worktree@,
                worktrees@,
                sessions@,
                failed@,
                page_size as nat,
                i,
            )).1 by {
                assert(!next_offset(
                    offset_in(cursor.per_worktree@, worktrees@[i].id@),
                    starts@[i],
                    failed@[i],
                    finals@[i] as int,
                    listed(sessions@[i]),
                ).1);
            }
        }
    }
    GroupPagePlan { page, sessions, next_cursor }
}

/// The JSON bytes carried by a cursor token: none for a first-page request
/// or a token that is not standard base64 (both read as the first page).
pub fn decode_cursor_token(cursor: Option<&str>) -> (r: Option<Vec<u8>>)
    ensures
        match cursor {
            None => r is None,
            Some(t) => match base64_standard_decoding(t@) {
                Some(b) => r matches Some(v) && v@ == b,
                None => r is None,
            },
        },
{
    match cursor {
        None => None,
        Some(t) => match base64_decode(t) {
            Ok(bytes) => Some(bytes),
            Err(_) => None,
        },
    }
}

/// The token of a cursor whose JSON serialisation is `json`; decoding the
/// token (see [`decode_cursor_token`]) gives `json` back.
pub fn encode_cursor_token(json: &[u8]) -> (r: String)
    ensures
        r@ == base64_standard_encoding(json@),
        base64_standard_decoding(r@) == Some(json@),
{
    base64_encode(json)
}

} // verus!
