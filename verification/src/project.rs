//! Project snapshot records produced by a project scan.

use vstd::prelude::*;

verus! {

/// One project directory as a scan found it: its encoded id, display name,
/// path, the ids of its sessions and the newest session mtime (ms).
#[derive(Debug)]
pub struct Project {
    pub id: String,
    pub name: String,
    pub path: String,
    pub sessions: Vec<String>,
    pub most_recent_session: Option<i64>,
    pub created_at: Option<i64>,
    pub distinct_cwds: Vec<String>,
}

/// Mathematical reading of a [`Project`].
pub struct ProjectView {
    pub id: Seq<char>,
    pub name: Seq<char>,
    pub path: Seq<char>,
    pub sessions: Seq<Seq<char>>,
    pub most_recent_session: Option<i64>,
    pub created_at: Option<i64>,
    pub distinct_cwds: Seq<Seq<char>>,
}

impl View for Project {
    type V = ProjectView;

    open spec fn view(&self) -> ProjectView {
        ProjectView {
            id: self.id@,
            name: self.name@,
            path: self.path@,
            sessions: self.sessions.deep_view(),
            most_recent_session: self.most_recent_session,
            created_at: self.created_at,
            distinct_cwds: self.distinct_cwds.deep_view(),
        }
    }
}

/// Views of a sequence of projects, element by element.
pub open spec fn projects_view(v: Seq<Project>) -> Seq<ProjectView> {
    v.map_values(|p: Project| p@)
}

/// Element-wise copy of a list of strings.
pub fn clone_strings(v: &Vec<String>) -> (r: Vec<String>)
    ensures
        r.deep_view() == v.deep_view(),
{
    let mut r: Vec<String> = Vec::new();
    let mut i: usize = 0;
    while i < v.len()
        invariant
            i <= v.len(),
            r.len() == i,
            forall|j: int| 0 <= j < i ==> #[trigger] r@[j]@ == v@[j]@,
        decreases v.len() - i,
    {
        r.push(v[i].clone());
        i = i + 1;
    }
    assert(r.deep_view() =~= v.deep_view());
    r
}

impl Project {
    /// A copy with the same view.
    pub fn duplicate(&self) -> (r: Project)
        ensures
            r@ == self@,
    {
        Project {
            id: self.id.clone(),
            name: self.name.clone(),
            path: self.path.clone(),
            sessions: clone_strings(&self.sessions),
            most_recent_session: self.most_recent_session,
            created_at: self.created_at,
            distinct_cwds: clone_strings(&self.distinct_cwds),
        }
    }
}

} // verus!
