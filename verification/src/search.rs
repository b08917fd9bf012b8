//! What a search request asks for: nothing for an empty query, one session
//! file, or a whole project; with the checks on its ids.

use vstd::prelude::*;

use crate::error::{ApiError, ApiErrorCode};
use crate::paths::{contains_dotdot, has_dotdot};
use crate::text::{chars_of, contains_char, to_owned_string};

verus! {

/// Most hits a search returns.
pub const SEARCH_MAX_RESULTS: usize = 50;

/// Where a search runs.
#[derive(Debug)]
pub enum SearchScope {
    /// The query is empty: the result is empty, nothing is read.
    Nothing,
    /// One session file of a project.
    Session { project_id: String, session_id: String },
    /// Every session of a project.
    Project { project_id: String },
}

/// Message of the error for a search without a project.
pub open spec fn missing_project_text() -> Seq<char> {
    "project_id is required for search"@
}

/// Message of the error for an unusable session id.
pub open spec fn invalid_session_text(sid: Seq<char>) -> Seq<char> {
    "invalid session ID: "@ + sid
}

/// A session id that could leave the project directory: it holds `..`, `/`
/// or `\`.
pub open spec fn traversing_session_id(sid: Seq<char>) -> bool {
    has_dotdot(sid) || sid.contains('/') || sid.contains('\\')
}

/// Decides where a search runs: nothing for an empty query; else a project
/// is required, and a session id, when given, must not leave the project
/// directory.
pub fn plan_search(query: &str, project_id: Option<&str>, session_id: Option<&str>) -> (r: Result<SearchScope, ApiError>)
    ensures
        query@.len() == 0 ==> r matches Ok(SearchScope::Nothing),
        query@.len() > 0 && project_id is None ==> (r matches Err(e) && e.code == ApiErrorCode::ValidationError
            && e.message@ == missing_project_text()),
        query@.len() > 0 && project_id is Some ==> match session_id {
            Some(sid) => if traversing_session_id(sid@) {
                (r matches Err(e) && e.code == ApiErrorCode::ValidationError && e.message@ == invalid_session_text(sid@))
            } else {
                (r matches Ok(SearchScope::Session { project_id: p, session_id: s }) && p@ == project_id.unwrap()@
                    && s@ == sid@)
            },
            None => (r matches Ok(SearchScope::Project { project_id: p }) && p@ == project_id.unwrap()@),
        },
{
    let q = chars_of(query);
    if q.len() == 0 {
        return Ok(SearchScope::Nothing);
    }
    let pid = match project_id {
        Some(p) => p,
        None => {
            return Err(ApiError::validation(String::from_str("project_id is required for search")));
        },
    };
    match session_id {
        Some(sid) => {
            let cs = chars_of(sid);
            if contains_dotdot(&cs) || contains_char(&cs, '/') || contains_char(&cs, '\\') {
                let mut msg = String::from_str("invalid session ID: ");
                msg.append(sid);
                return Err(ApiError::validation(msg));
            }
            Ok(SearchScope::Session { project_id: to_owned_string(pid), session_id: to_owned_string(sid) })
        },
        None => Ok(SearchScope::Project { project_id: to_owned_string(pid) }),
    }
}

} // verus!
