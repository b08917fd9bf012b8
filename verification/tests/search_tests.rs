use cdt_api::error::ApiErrorCode;
use cdt_api::search::{plan_search, SearchScope, SEARCH_MAX_RESULTS};

#[test]
fn empty_query_searches_nothing() {
    assert!(matches!(plan_search("", None, None), Ok(SearchScope::Nothing)));
    assert!(matches!(plan_search("", Some("p"), Some("../x")), Ok(SearchScope::Nothing)));
}

#[test]
fn project_is_required() {
    let e = plan_search("q", None, Some("s")).unwrap_err();
    assert_eq!(e.code, ApiErrorCode::ValidationError);
    assert_eq!(e.message, "project_id is required for search");
}

#[test]
fn traversing_session_ids_are_refused() {
    for sid in ["..", "a/b", "a\\b", "x..y"] {
        let e = plan_search("q", Some("p"), Some(sid)).unwrap_err();
        assert_eq!(e.code, ApiErrorCode::ValidationError);
        assert_eq!(e.message, format!("invalid session ID: {sid}"));
    }
}

#[test]
fn session_and_project_scopes() {
    match plan_search("q", Some("p"), Some("abc.def")).unwrap() {
        SearchScope::Session { project_id, session_id } => {
            assert_eq!(project_id, "p");
            assert_eq!(session_id, "abc.def");
        }
        other => panic!("unexpected {other:?}"),
    }
    match plan_search("q", Some("p"), None).unwrap() {
        SearchScope::Project { project_id } => assert_eq!(project_id, "p"),
        other => panic!("unexpected {other:?}"),
    }
    assert_eq!(SEARCH_MAX_RESULTS, 50);
}
