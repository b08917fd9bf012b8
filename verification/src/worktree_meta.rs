//! The worktree fields of a session summary, joined from the repository
//! groups by the session's project id.

use vstd::prelude::*;

use crate::group::RepositoryGroup;
use crate::text::{opt_view, str_eq};

verus! {

/// What a session of worktree `worktree_id` shows of its worktree and group.
#[derive(Debug)]
pub struct WorktreeMeta {
    pub worktree_id: String,
    pub worktree_name: String,
    pub group_id: String,
    pub cwd_relative_to_repo_root: Option<String>,
}

/// Mathematical reading of a [`WorktreeMeta`].
pub struct MetaView {
    pub worktree_id: Seq<char>,
    pub worktree_name: Seq<char>,
    pub group_id: Seq<char>,
    pub cwd_relative_to_repo_root: Option<Seq<char>>,
}

impl View for WorktreeMeta {
    type V = MetaView;

    open spec fn view(&self) -> MetaView {
        MetaView {
            worktree_id: self.worktree_id@,
            worktree_name: self.worktree_name@,
            group_id: self.group_id@,
            cwd_relative_to_repo_root: opt_view(self.cwd_relative_to_repo_root),
        }
    }
}

/// The entries of one group, one per worktree, in order.
pub open spec fn group_metas(g: RepositoryGroup) -> Seq<MetaView> {
    Seq::new(
        g.worktrees@.len(),
        |k: int|
            MetaView {
                worktree_id: g.worktrees@[k].id@,
                worktree_name: g.worktrees@[k].name@,
                group_id: g.id@,
                cwd_relative_to_repo_root: opt_view(g.worktrees@[k].cwd_relative_to_repo_root),
            },
    )
}

/// The entries of all groups, group by group.
pub open spec fn all_metas(gs: Seq<RepositoryGroup>) -> Seq<MetaView>
    decreases gs.len(),
{
    if gs.len() == 0 {
        Seq::empty()
    } else {
        all_metas(gs.drop_last()) + group_metas(gs.last())
    }
}

/// The entry for `id`: the last one listed (a worktree listed twice keeps
/// the later listing).
pub open spec fn last_meta(ms: Seq<MetaView>, id: Seq<char>) -> Option<MetaView>
    decreases ms.len(),
{
    if ms.len() == 0 {
        None
    } else if ms.last().worktree_id == id {
        Some(ms.last())
    } else {
        last_meta(ms.drop_last(), id)
    }
}

/// Views of a list of entries.
pub open spec fn metas_view(v: Seq<WorktreeMeta>) -> Seq<MetaView> {
    v.map_values(|m: WorktreeMeta| m@)
}

/// The worktree entries of the groups, rebuilt from scratch.
pub fn worktree_meta_index(groups: &[RepositoryGroup]) -> (r: Vec<WorktreeMeta>)
    ensures
        metas_view(r@) == all_metas(groups@),
{
    let mut out: Vec<WorktreeMeta> = Vec::new();
    let mut i: usize = 0;
    assert(groups@.take(0) =~= Seq::<RepositoryGroup>::empty());
    assert(metas_view(out@) =~= Seq::<MetaView>::empty());
    while i < groups.len()
        invariant
            i <= groups@.len(),
            metas_view(out@) == all_metas(groups@.take(i as int)),
        decreases groups@.len() - i,
    {
        let g = &groups[i];
        let ghost before = metas_view(out@);
        let mut j: usize = 0;
        assert(group_metas(*g).take(0) =~= Seq::<MetaView>::empty());
        assert(before + group_metas(*g).take(0) =~= before);
        while j < g.worktrees.len()
            invariant
                j <= g.worktrees@.len(),
                metas_view(out@) == before + group_metas(*g).take(j as int),
            decreases g.worktrees@.len() - j,
        {
            let w = &g.worktrees[j];
            let cwd = match &w.cwd_relative_to_repo_root {
                Some(c) => Some(String::from_str(c.as_str())),
                None => None,
            };
            let m = WorktreeMeta {
                worktree_id: String::from_str(w.id.as_str()),
                worktree_name: String::from_str(w.name.as_str()),
                group_id: String::from_str(g.id.as_str()),
                cwd_relative_to_repo_root: cwd,
            };
            assert(m@ == group_metas(*g)[j as int]);
            let ghost prev = out@;
            out.push(m);
            proof {
                assert(metas_view(out@) =~= metas_view(prev).push(m@));
                assert(group_metas(*g).take(j + 1) =~= group_metas(*g).take(j as int).push(group_metas(*g)[j as int]));
                assert(metas_view(out@) =~= before + group_metas(*g).take(j + 1));
            }
            j = j + 1;
        }
        proof {
            assert(group_metas(*g).take(j as int) =~= group_metas(*g));
            assert(groups@.take(i + 1).drop_last() =~= groups@.take(i as int));
            assert(groups@.take(i + 1).last() == *g);
        }
        i = i + 1;
    }
    assert(groups@.take(i as int) =~= groups@);
    out
}

/// The entry of the worktree whose id is a session's project id (see
/// [`last_meta`]).
pub fn worktree_meta_for<'a>(index: &'a [WorktreeMeta], project_id: &str) -> (r: Option<&'a WorktreeMeta>)
    ensures
        match r {
            Some(m) => last_meta(metas_view(index@), project_id@) == Some(m@),
            None => last_meta(metas_view(index@), project_id@) is None,
        },
{
    let ghost ms = metas_view(index@);
    let mut i: usize = index.len();
    assert(ms.take(ms.len() as int) =~= ms);
    while i > 0
        invariant
            i <= index@.len(),
            ms == metas_view(index@),
            last_meta(ms.take(i as int), project_id@) == last_meta(ms, project_id@),
        decreases i,
    {
        proof {
            assert(ms.take(i as int).last() == index@[i - 1]@);
            assert(ms.take(i as int).drop_last() =~= ms.take(i - 1));
        }
        if str_eq(index[i - 1].worktree_id.as_str(), project_id) {
            return Some(&index[i - 1]);
        }
        i = i - 1;
    }
    None
}

} // verus!
