use cdt_api::error::ApiErrorCode;
use cdt_api::group::{
    decode_cursor_token, dedup_sessions_across_worktrees, encode_cursor_token, find_group_with_fallback,
    merge_group_page, next_group_cursor, plan_group_page, resolve_cursor_indices, GroupCursor, RepositoryGroup,
    SessionRef, Worktree, WorktreeOffset,
};

fn make_group(id: &str, worktree_ids: &[&str]) -> RepositoryGroup {
    RepositoryGroup {
        id: id.to_string(),
        name: id.to_string(),
        worktrees: worktree_ids.iter().map(|wid| Worktree { id: wid.to_string(), name: wid.to_string(), cwd_relative_to_repo_root: None }).collect(),
    }
}

fn wts(ids: &[&str]) -> Vec<Worktree> {
    ids.iter().map(|id| Worktree { id: id.to_string(), name: id.to_string(), cwd_relative_to_repo_root: None }).collect()
}

fn s(id: &str, m: i64) -> SessionRef {
    SessionRef { id: id.to_string(), last_modified: m }
}

fn ids(v: &Option<Vec<SessionRef>>) -> Vec<String> {
    v.as_ref().map(|l| l.iter().map(|x| x.id.clone()).collect()).unwrap_or_default()
}

fn empty_cursor() -> GroupCursor {
    GroupCursor { per_worktree: Vec::new() }
}

#[test]
fn find_group_with_fallback_exact_match() {
    let groups = vec![make_group("/Users/foo/.git", &["-Users-foo-workspace"]), make_group("-Users-bar-proj", &["-Users-bar-proj"])];
    let result = find_group_with_fallback(groups, "/Users/foo/.git").unwrap();
    assert_eq!(result.id, "/Users/foo/.git");
}

#[test]
fn find_group_with_fallback_stale_project_id_matches_worktree() {
    let groups = vec![make_group("/Users/foo/workspace/.git", &["-Users-foo-workspace"])];
    let result = find_group_with_fallback(groups, "-Users-foo-workspace").unwrap();
    assert_eq!(result.id, "/Users/foo/workspace/.git");
}

#[test]
fn find_group_with_fallback_exact_match_takes_priority_over_worktree_fallback() {
    let groups = vec![
        make_group("-Users-foo-workspace", &["-Users-foo-workspace"]),
        make_group("/Users/bar/.git", &["-Users-foo-workspace"]),
    ];
    let result = find_group_with_fallback(groups, "-Users-foo-workspace").unwrap();
    assert_eq!(result.id, "-Users-foo-workspace");
}

#[test]
fn find_group_with_fallback_returns_not_found_when_nothing_matches() {
    let groups = vec![make_group("/Users/foo/.git", &["-Users-foo-proj"])];
    let err = find_group_with_fallback(groups, "-Users-nonexistent").unwrap_err();
    assert!(format!("{err:?}").contains("NotFound"));
    assert_eq!(err.code, ApiErrorCode::NotFound);
    assert_eq!(err.message, "repository group -Users-nonexistent");
}

#[test]
fn resume_points_follow_cursor() {
    let worktrees = wts(&["a", "b", "c", "d"]);
    let cursor = GroupCursor {
        per_worktree: vec![
            ("b".to_string(), WorktreeOffset::Exhausted),
            ("c".to_string(), WorktreeOffset::AfterMtime { mtime_ms: 50, sid: "s2".to_string() }),
            ("d".to_string(), WorktreeOffset::AfterMtime { mtime_ms: 5, sid: "x".to_string() }),
        ],
    };
    let sessions = vec![
        Some(vec![s("s1", 100)]),
        Some(vec![s("s1", 100)]),
        Some(vec![s("s1", 60), s("s2", 50), s("s3", 50), s("s4", 40)]),
        None,
    ];
    let idx = resolve_cursor_indices(&worktrees, &cursor, &sessions);
    assert_eq!(idx, vec![(0, false), (0, true), (2, false), (0, false)]);
}

#[test]
fn dedup_keeps_newest_copy_and_skips_exhausted() {
    let worktrees = wts(&["wa", "wb", "wc"]);
    let cursor = GroupCursor { per_worktree: vec![("wc".to_string(), WorktreeOffset::Exhausted)] };
    let mut sessions = vec![
        Some(vec![s("x", 5), s("y", 1), s("x", 3)]),
        Some(vec![s("x", 4), s("y", 1), s("z", 2)]),
        Some(vec![s("x", 9)]),
    ];
    dedup_sessions_across_worktrees(&mut sessions, &cursor, &worktrees);
    // x: newest active copy (5) is in wa; y: tie at 1 goes to the smaller id wa.
    assert_eq!(ids(&sessions[0]), vec!["x", "y", "x"]);
    assert_eq!(ids(&sessions[1]), vec!["z"]);
    // wc is exhausted and untouched even though its copy is newer.
    assert_eq!(ids(&sessions[2]), vec!["x"]);
}

#[test]
fn merge_page_orders_newest_first_with_id_tiebreak() {
    let sessions = vec![Some(vec![s("a1", 90), s("a2", 50)]), Some(vec![s("b1", 90), s("b2", 70)]), None];
    let starts = vec![(0, false), (0, false), (0, false)];
    let (page, finals) = merge_group_page(&sessions, &starts, 3);
    assert_eq!(page, vec![(0, 0), (1, 0), (1, 1)]);
    assert_eq!(finals, vec![1, 2, 0]);
    let (all, finals_all) = merge_group_page(&sessions, &starts, 10);
    assert_eq!(all, vec![(0, 0), (1, 0), (1, 1), (0, 1)]);
    assert_eq!(finals_all, vec![2, 2, 0]);
}

#[test]
fn merge_page_skips_exhausted_and_resumes_at_start() {
    let sessions = vec![Some(vec![s("a1", 90), s("a2", 50)]), Some(vec![s("b1", 99)])];
    let starts = vec![(1, false), (0, true)];
    let (page, _) = merge_group_page(&sessions, &starts, 5);
    assert_eq!(page, vec![(0, 1)]);
}

#[test]
fn next_cursor_records_progress_and_preserves_failures() {
    let worktrees = wts(&["a", "b", "c", "d"]);
    let cursor = GroupCursor { per_worktree: vec![("c".to_string(), WorktreeOffset::Exhausted)] };
    let sessions = vec![Some(vec![s("a1", 90), s("a2", 50)]), Some(vec![s("b1", 80)]), None, None];
    let starts = vec![(0, false), (0, false), (0, true), (0, false)];
    let finals = vec![1, 1, 0, 0];
    let failed = vec![false, false, false, true];
    let next = next_group_cursor(&worktrees, &cursor, &starts, &finals, &sessions, &failed).expect("more pages");
    assert_eq!(next.per_worktree.len(), 4);
    assert_eq!(next.per_worktree[0].0, "a");
    assert!(matches!(&next.per_worktree[0].1, WorktreeOffset::AfterMtime { mtime_ms: 90, sid } if sid == "a1"));
    assert!(matches!(next.per_worktree[1].1, WorktreeOffset::Exhausted));
    assert!(matches!(next.per_worktree[2].1, WorktreeOffset::Exhausted));
    assert!(matches!(next.per_worktree[3].1, WorktreeOffset::NotStarted), "a failed worktree keeps its offset");
}

#[test]
fn next_cursor_is_none_when_everything_is_exhausted() {
    let worktrees = wts(&["a"]);
    let sessions = vec![Some(vec![s("a1", 90)])];
    let next = next_group_cursor(&worktrees, &empty_cursor(), &[(0, false)], &[1], &sessions, &[false]);
    assert!(next.is_none());
}

#[test]
fn plan_group_page_walks_all_sessions_across_pages() {
    let worktrees = wts(&["wa", "wb"]);
    let lists = || vec![Some(vec![s("x", 100), s("p", 40)]), Some(vec![s("q", 70), s("x", 60)])];
    let first = plan_group_page(&worktrees, &empty_cursor(), lists(), &[false, false], 2);
    let got: Vec<(usize, usize)> = first.page.clone();
    assert_eq!(got, vec![(0, 0), (1, 0)]);
    assert_eq!(ids(&first.sessions[1]), vec!["q"], "the older copy of x is removed");
    let cursor = first.next_cursor.expect("a second page");
    let second = plan_group_page(&worktrees, &cursor, lists(), &[false, false], 2);
    assert_eq!(second.page, vec![(0, 1)]);
    assert!(second.next_cursor.is_none());
}

#[test]
fn cursor_token_round_trip_through_base64() {
    let token = encode_cursor_token(b"{\"perWorktree\":{}}");
    assert_eq!(token, "eyJwZXJXb3JrdHJlZSI6e319");
    assert_eq!(decode_cursor_token(Some(&token)), Some(b"{\"perWorktree\":{}}".to_vec()));
    assert_eq!(decode_cursor_token(Some("%%%")), None);
    assert_eq!(decode_cursor_token(None), None);
}
