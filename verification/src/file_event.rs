//! File-change notifications produced by the session watcher.

use vstd::prelude::*;

verus! {

/// One watcher notification about a session file.
///
/// `project_list_changed` marks a structural change of the project list,
/// `session_list_changed` a possible change of the set of sessions in a
/// project, and `mtime_ms` the file's modification time when it was known.
#[derive(Debug, Clone)]
pub struct FileChangeEvent {
    pub project_id: String,
    pub session_id: String,
    pub deleted: bool,
    pub project_list_changed: bool,
    pub session_list_changed: bool,
    pub mtime_ms: Option<i64>,
}

/// Mathematical reading of a [`FileChangeEvent`].
pub struct FileChangeEventView {
    pub project_id: Seq<char>,
    pub session_id: Seq<char>,
    pub deleted: bool,
    pub project_list_changed: bool,
    pub session_list_changed: bool,
    pub mtime_ms: Option<i64>,
}

impl View for FileChangeEvent {
    type V = FileChangeEventView;

    open spec fn view(&self) -> FileChangeEventView {
        FileChangeEventView {
            project_id: self.project_id@,
            session_id: self.session_id@,
            deleted: self.deleted,
            project_list_changed: self.project_list_changed,
            session_list_changed: self.session_list_changed,
            mtime_ms: self.mtime_ms,
        }
    }
}

impl FileChangeEvent {
    /// A copy with the same view.
    pub fn duplicate(&self) -> (r: FileChangeEvent)
        ensures
            r@ == self@,
    {
        FileChangeEvent {
            project_id: self.project_id.clone(),
            session_id: self.session_id.clone(),
            deleted: self.deleted,
            project_list_changed: self.project_list_changed,
            session_list_changed: self.session_list_changed,
            mtime_ms: self.mtime_ms,
        }
    }
}

} // verus!
