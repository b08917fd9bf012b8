use std::sync::Arc;

use cdt_api::context::{ContextId, FsKind};
use cdt_api::file_event::FileChangeEvent;
use cdt_api::invalidator::{process_lag, process_local_file_event, process_remote_file_event};
use cdt_api::parsed_cache::ParsedMessageCache;
use cdt_api::project::Project;
use cdt_api::scan_cache::{
    apply_file_event_to_project_scan_cache, apply_lag_to_project_scan_cache, apply_mtime_advance_to_project_scan_cache,
    synthesize_projects_with_overlay, ProjectScanCache,
};

fn local_ctx() -> ContextId {
    ContextId::local("/home/u/.config/devtools/projects".to_string())
}

fn ssh_ctx() -> ContextId {
    ContextId::ssh("example.com:22:alice".to_string(), "/home/u/.config/devtools/projects".to_string())
}

fn snapshot() -> Arc<Vec<Project>> {
    Arc::new(Vec::new())
}

fn snapshot_with(projects: Vec<Project>) -> Arc<Vec<Project>> {
    Arc::new(projects)
}

fn proj(id: &str, sessions: &[&str]) -> Project {
    proj_with_mtime(id, sessions, None)
}

fn proj_with_mtime(id: &str, sessions: &[&str], most_recent_session: Option<i64>) -> Project {
    Project {
        id: id.to_string(),
        name: id.to_string(),
        path: String::new(),
        sessions: sessions.iter().map(|s| (*s).to_string()).collect(),
        most_recent_session,
        created_at: None,
        distinct_cwds: Vec::new(),
    }
}

fn fc(project_id: &str, session_id: &str, deleted: bool, plc: bool, slc: bool, mtime_ms: Option<i64>) -> FileChangeEvent {
    FileChangeEvent {
        project_id: project_id.to_string(),
        session_id: session_id.to_string(),
        deleted,
        project_list_changed: plc,
        session_list_changed: slc,
        mtime_ms,
    }
}

#[test]
fn miss_when_empty() {
    let mut c = ProjectScanCache::new();
    assert!(c.lookup(&local_ctx(), 0, 0).is_none());
    assert_eq!(c.stats().hits, 0);
    assert_eq!(c.stats().lookups, 1);
}

#[test]
fn hit_after_insert_same_generation() {
    let mut c = ProjectScanCache::new();
    c.insert(local_ctx(), snapshot(), 1, 2, FsKind::Local);
    assert!(c.lookup(&local_ctx(), 1, 2).is_some());
    assert_eq!(c.stats().hits, 1);
}

#[test]
fn miss_when_root_generation_changes() {
    let mut c = ProjectScanCache::new();
    c.insert(local_ctx(), snapshot(), 1, 2, FsKind::Local);
    assert!(c.lookup(&local_ctx(), 2, 2).is_none());
}

#[test]
fn miss_when_context_generation_changes() {
    let mut c = ProjectScanCache::new();
    c.insert(local_ctx(), snapshot(), 1, 2, FsKind::Local);
    assert!(c.lookup(&local_ctx(), 1, 3).is_none());
}

#[test]
fn miss_for_different_context_id() {
    let mut c = ProjectScanCache::new();
    c.insert(local_ctx(), snapshot(), 1, 2, FsKind::Local);
    assert!(c.lookup(&ssh_ctx(), 1, 2).is_none());
}

#[test]
fn invalidate_local_clears_local_only() {
    let mut c = ProjectScanCache::new();
    c.insert(local_ctx(), snapshot(), 1, 2, FsKind::Local);
    c.insert(ssh_ctx(), snapshot(), 1, 2, FsKind::Ssh);
    c.invalidate_local();
    assert!(c.lookup(&local_ctx(), 1, 2).is_none());
    assert!(c.lookup(&ssh_ctx(), 1, 2).is_some());
}

#[test]
fn invalidate_specific_context_removes_one_entry() {
    let mut c = ProjectScanCache::new();
    c.insert(local_ctx(), snapshot(), 1, 2, FsKind::Local);
    c.insert(ssh_ctx(), snapshot(), 1, 2, FsKind::Ssh);
    c.invalidate(&ssh_ctx());
    assert!(c.lookup(&local_ctx(), 1, 2).is_some());
    assert!(c.lookup(&ssh_ctx(), 1, 2).is_none());
    assert_eq!(c.len(), 1);
}

#[test]
fn try_insert_succeeds_when_generation_unchanged() {
    let mut c = ProjectScanCache::new();
    let gen_snapshot = c.invalidation_generation();
    let ok = c.try_insert(local_ctx(), snapshot(), 1, 2, FsKind::Local, gen_snapshot);
    assert!(ok);
    assert!(c.lookup(&local_ctx(), 1, 2).is_some());
}

#[test]
fn try_insert_drops_snapshot_when_invalidate_local_ran_during_scan() {
    let mut c = ProjectScanCache::new();
    let recorded = c.invalidation_generation();
    c.invalidate_local();
    let inserted = c.try_insert(local_ctx(), snapshot(), 1, 2, FsKind::Local, recorded);
    assert!(!inserted, "an invalidation during the scan SHALL drop the old snapshot");
    assert!(c.lookup(&local_ctx(), 1, 2).is_none());
}

#[test]
fn invalidate_all_clears_local_and_ssh() {
    let mut c = ProjectScanCache::new();
    c.insert(local_ctx(), snapshot(), 1, 2, FsKind::Local);
    c.insert(ssh_ctx(), snapshot(), 1, 2, FsKind::Ssh);
    c.invalidate_all();
    assert!(c.lookup(&local_ctx(), 1, 2).is_none());
    assert!(c.lookup(&ssh_ctx(), 1, 2).is_none());
    assert!(c.is_empty());
}

#[test]
fn invalidate_local_bumps_invalidation_generation() {
    let mut c = ProjectScanCache::new();
    let g0 = c.invalidation_generation();
    c.invalidate_local();
    let g1 = c.invalidation_generation();
    assert_ne!(g0, g1);
}

#[test]
fn contains_session_id_returns_false_when_no_entry() {
    let c = ProjectScanCache::new();
    assert!(!c.contains_session_id(&local_ctx(), "pa", "sa"));
}

#[test]
fn contains_session_id_returns_false_when_project_absent() {
    let mut c = ProjectScanCache::new();
    c.insert(local_ctx(), snapshot_with(vec![proj("pb", &["sb"])]), 1, 2, FsKind::Local);
    assert!(!c.contains_session_id(&local_ctx(), "pa", "sb"));
}

#[test]
fn contains_session_id_returns_false_when_session_absent() {
    let mut c = ProjectScanCache::new();
    c.insert(local_ctx(), snapshot_with(vec![proj("pa", &["sa1", "sa2"])]), 1, 2, FsKind::Local);
    assert!(!c.contains_session_id(&local_ctx(), "pa", "sa3"));
}

#[test]
fn contains_session_id_returns_true_on_hit() {
    let mut c = ProjectScanCache::new();
    c.insert(local_ctx(), snapshot_with(vec![proj("pa", &["sa1", "sa2"])]), 1, 2, FsKind::Local);
    assert!(c.contains_session_id(&local_ctx(), "pa", "sa2"));
}

#[test]
fn contains_session_id_isolates_across_contexts() {
    let mut c = ProjectScanCache::new();
    c.insert(local_ctx(), snapshot_with(vec![proj("pa", &["sa"])]), 1, 2, FsKind::Local);
    c.insert(ssh_ctx(), snapshot_with(vec![proj("pb", &["sb"])]), 1, 2, FsKind::Ssh);
    assert!(c.contains_session_id(&local_ctx(), "pa", "sa"));
    assert!(!c.contains_session_id(&ssh_ctx(), "pa", "sa"));
    assert!(c.contains_session_id(&ssh_ctx(), "pb", "sb"));
    assert!(!c.contains_session_id(&local_ctx(), "pb", "sb"));
}

#[test]
fn known_session_append_advances_hint_without_invalidate() {
    let mut c = ProjectScanCache::new();
    let ctx = local_ctx();
    c.insert(ctx.clone(), snapshot_with(vec![proj_with_mtime("pa", &["sa"], Some(100))]), 1, 2, FsKind::Local);
    c.advance_mtime(&ctx, "pa", 100);
    let event = fc("pa", "sa", false, false, false, Some(500));
    let decision = apply_file_event_to_project_scan_cache(&mut c, &ctx, &event);
    apply_mtime_advance_to_project_scan_cache(&mut c, &ctx, &event);
    assert!(!decision.invalidated, "a known session's append SHALL NOT invalidate");
    assert_eq!(c.lookup_mtime_overlay(&ctx, "pa"), Some(500), "the hint SHALL advance");
    assert!(c.has_entry(&ctx));
}

#[test]
fn deletion_event_does_not_advance_hint_but_still_invalidates() {
    let mut c = ProjectScanCache::new();
    let ctx = local_ctx();
    c.insert(ctx.clone(), snapshot_with(vec![proj_with_mtime("pa", &["sa"], Some(100))]), 1, 2, FsKind::Local);
    c.advance_mtime(&ctx, "pa", 100);
    let event = fc("pa", "sa", true, false, true, None);
    let decision = apply_file_event_to_project_scan_cache(&mut c, &ctx, &event);
    apply_mtime_advance_to_project_scan_cache(&mut c, &ctx, &event);
    assert!(decision.invalidated, "a deletion SHALL invalidate");
    assert_eq!(c.lookup_mtime_overlay(&ctx, "pa"), Some(100), "a deletion SHALL NOT move the hint");
}

#[test]
fn cache_hit_path_synthesizes_via_overlay() {
    let mut c = ProjectScanCache::new();
    let ctx = local_ctx();
    let snap = snapshot_with(vec![proj_with_mtime("pa", &["sa"], Some(100))]);
    c.insert(ctx.clone(), snap.clone(), 1, 2, FsKind::Local);
    c.advance_mtime(&ctx, "pa", 250);
    c.advance_mtime(&ctx, "pa", 800);
    c.advance_mtime(&ctx, "pa", 300);
    assert_eq!(c.lookup_mtime_overlay(&ctx, "pa"), Some(800));
    let hit = c.lookup(&ctx, 1, 2).expect("entry still hits");
    assert_eq!(hit[0].most_recent_session, Some(100), "the snapshot itself SHALL NOT be rewritten");
}

#[test]
fn rescan_keeps_larger_overlay() {
    let mut c = ProjectScanCache::new();
    let ctx = local_ctx();
    c.advance_mtime(&ctx, "pa", 999);
    let recorded = c.begin_scan();
    let new_snap = snapshot_with(vec![proj_with_mtime("pa", &["sa"], Some(500))]);
    let inserted = c.finish_scan_with_insert(ctx.clone(), new_snap, 1, 2, FsKind::Local, recorded);
    assert!(inserted);
    assert_eq!(c.lookup_mtime_overlay(&ctx, "pa"), Some(999), "snapshot 500 < hint 999 keeps the hint");
}

#[test]
fn rescan_drops_overlay_when_snapshot_caught_up() {
    let mut c = ProjectScanCache::new();
    let ctx = local_ctx();
    c.advance_mtime(&ctx, "pa", 500);
    let recorded = c.begin_scan();
    let new_snap = snapshot_with(vec![proj_with_mtime("pa", &["sa"], Some(800))]);
    let inserted = c.finish_scan_with_insert(ctx.clone(), new_snap, 1, 2, FsKind::Local, recorded);
    assert!(inserted);
    assert_eq!(c.lookup_mtime_overlay(&ctx, "pa"), None, "snapshot 800 >= hint 500 drops the hint");
}

#[test]
fn invalidate_local_keeps_overlay() {
    let mut c = ProjectScanCache::new();
    let ctx = local_ctx();
    c.insert(ctx.clone(), snapshot_with(vec![proj_with_mtime("pa", &["sa"], Some(100))]), 1, 2, FsKind::Local);
    c.advance_mtime(&ctx, "pa", 999);
    c.invalidate_local();
    assert!(c.lookup(&ctx, 1, 2).is_none(), "invalidation SHALL clear the local entry");
    assert_eq!(c.lookup_mtime_overlay(&ctx, "pa"), Some(999), "invalidation SHALL NOT clear the hint");
}

#[test]
fn invalidate_all_clears_overlay_too() {
    let mut c = ProjectScanCache::new();
    c.insert(local_ctx(), snapshot_with(vec![proj_with_mtime("pa", &["sa"], Some(100))]), 1, 2, FsKind::Local);
    c.insert(ssh_ctx(), snapshot_with(vec![proj_with_mtime("pb", &["sb"], Some(200))]), 1, 2, FsKind::Ssh);
    c.advance_mtime(&local_ctx(), "pa", 500);
    c.advance_mtime(&ssh_ctx(), "pb", 600);
    c.invalidate_all();
    assert!(c.is_empty());
    assert_eq!(c.lookup_mtime_overlay(&local_ctx(), "pa"), None);
    assert_eq!(c.lookup_mtime_overlay(&ssh_ctx(), "pb"), None);
}

#[test]
fn ssh_event_advances_ssh_overlay_only() {
    let mut c = ProjectScanCache::new();
    c.insert(local_ctx(), snapshot_with(vec![proj_with_mtime("pa", &["sa"], Some(100))]), 1, 2, FsKind::Local);
    c.advance_mtime(&local_ctx(), "pa", 100);
    let event = fc("pa", "sa", false, false, false, Some(700));
    apply_mtime_advance_to_project_scan_cache(&mut c, &ssh_ctx(), &event);
    assert_eq!(c.lookup_mtime_overlay(&ssh_ctx(), "pa"), Some(700), "the SSH context's hint SHALL advance");
    assert_eq!(c.lookup_mtime_overlay(&local_ctx(), "pa"), Some(100), "the local hint SHALL NOT move");
}

#[test]
fn event_without_mtime_does_not_advance_hint() {
    let mut c = ProjectScanCache::new();
    let ctx = local_ctx();
    c.insert(ctx.clone(), snapshot_with(vec![proj_with_mtime("pa", &["sa"], Some(100))]), 1, 2, FsKind::Local);
    let event = fc("pa", "sa", false, false, false, None);
    let decision = apply_file_event_to_project_scan_cache(&mut c, &ctx, &event);
    apply_mtime_advance_to_project_scan_cache(&mut c, &ctx, &event);
    assert!(!decision.invalidated, "a known session's append stays a no-op");
    assert_eq!(c.lookup_mtime_overlay(&ctx, "pa"), None, "an event without mtime SHALL NOT write a hint");
}

#[test]
fn cold_start_event_writes_hint_even_without_entry() {
    let mut c = ProjectScanCache::new();
    let ctx = local_ctx();
    let event = fc("pa", "sa", false, false, true, Some(123));
    apply_mtime_advance_to_project_scan_cache(&mut c, &ctx, &event);
    assert_eq!(c.lookup_mtime_overlay(&ctx, "pa"), Some(123), "an empty cache SHALL still record the hint");
}

#[test]
fn synthesize_returns_same_arc_when_no_overlay() {
    let c = ProjectScanCache::new();
    let snap = snapshot_with(vec![proj_with_mtime("pa", &["sa"], Some(100))]);
    let out = synthesize_projects_with_overlay(&c, &local_ctx(), &snap);
    assert!(Arc::ptr_eq(&out, &snap), "without hints the same Arc SHALL be returned");
}

#[test]
fn synthesize_injects_overlay_when_greater() {
    let mut c = ProjectScanCache::new();
    let ctx = local_ctx();
    let snap = snapshot_with(vec![proj_with_mtime("pa", &["sa"], Some(100)), proj_with_mtime("pb", &["sb"], Some(500))]);
    c.advance_mtime(&ctx, "pa", 999);
    c.advance_mtime(&ctx, "pb", 200);
    let out = synthesize_projects_with_overlay(&c, &ctx, &snap);
    assert!(!Arc::ptr_eq(&out, &snap), "a newer hint SHALL produce a new Vec");
    assert_eq!(out[0].id, "pa");
    assert_eq!(out[0].most_recent_session, Some(999));
    assert_eq!(out[1].id, "pb");
    assert_eq!(out[1].most_recent_session, Some(500), "an older hint leaves the snapshot value");
    assert_eq!(snap[0].most_recent_session, Some(100));
}

#[test]
fn synthesize_returns_same_arc_when_all_hints_le_snapshot() {
    let mut c = ProjectScanCache::new();
    let ctx = local_ctx();
    c.advance_mtime(&ctx, "pa", 50);
    let snap = snapshot_with(vec![proj_with_mtime("pa", &["sa"], Some(100))]);
    let out = synthesize_projects_with_overlay(&c, &ctx, &snap);
    assert!(Arc::ptr_eq(&out, &snap), "hint 50 <= snapshot 100 SHALL NOT allocate");
}

#[test]
fn rescan_drops_hint_for_project_no_longer_in_snapshot() {
    let mut c = ProjectScanCache::new();
    let ctx = local_ctx();
    c.advance_mtime(&ctx, "pa", 500);
    c.advance_mtime(&ctx, "pb", 700);
    let recorded = c.begin_scan();
    let new_snap = snapshot_with(vec![proj_with_mtime("pb", &["sb"], Some(300))]);
    let inserted = c.finish_scan_with_insert(ctx.clone(), new_snap, 1, 2, FsKind::Local, recorded);
    assert!(inserted);
    assert_eq!(c.lookup_mtime_overlay(&ctx, "pa"), None, "a project gone from the snapshot loses its hint");
    assert_eq!(c.lookup_mtime_overlay(&ctx, "pb"), Some(700), "pb is still listed and older than its hint");
}

#[test]
fn unified_lag_path_only_clears_scan_cache() {
    let local_ctx = ContextId::local("/tmp/lag-test-projects".to_string());
    let parsed_cache: ParsedMessageCache<u8> = ParsedMessageCache::default();
    let mut scan_cache = ProjectScanCache::new();
    let snapshot = Arc::new(vec![Project {
        id: "-tmp-proj".to_string(),
        name: "tmp".to_string(),
        path: "/tmp/x".to_string(),
        sessions: vec!["sess-x".to_string()],
        most_recent_session: None,
        created_at: None,
        distinct_cwds: vec![],
    }]);
    let scan_gen = scan_cache.begin_scan();
    scan_cache.insert(local_ctx.clone(), snapshot, scan_gen, scan_gen, FsKind::Local);
    assert!(scan_cache.has_entry(&local_ctx));
    let parsed_len_before = parsed_cache.len();
    apply_lag_to_project_scan_cache(&mut scan_cache);
    assert!(!scan_cache.has_entry(&local_ctx), "a lag SHALL clear the local scan entry");
    assert_eq!(parsed_cache.len(), parsed_len_before, "a lag SHALL NOT touch the parsed cache");
}

#[test]
fn lag_step_emits_synthetic_structural_event() {
    let mut c = ProjectScanCache::new();
    c.insert(local_ctx(), snapshot(), 1, 2, FsKind::Local);
    let e = process_lag(&mut c);
    assert_eq!(e.project_id, "");
    assert_eq!(e.session_id, "");
    assert!(!e.deleted);
    assert!(e.project_list_changed);
    assert!(e.session_list_changed);
    assert_eq!(e.mtime_ms, None);
    assert!(!c.has_entry(&local_ctx()));
}

#[test]
fn unknown_session_raises_session_list_changed() {
    let mut c = ProjectScanCache::new();
    let ctx = local_ctx();
    c.insert(ctx.clone(), snapshot_with(vec![proj("pa", &["sa"])]), 1, 2, FsKind::Local);
    let e = process_local_file_event(&mut c, &ctx, &fc("pa", "new", false, false, false, Some(10)));
    assert!(e.session_list_changed, "an unknown session SHALL be flagged");
    assert!(!c.has_entry(&ctx), "an unknown session SHALL invalidate the local entry");
    assert_eq!(c.lookup_mtime_overlay(&ctx, "pa"), Some(10));
}

#[test]
fn known_session_append_passes_watcher_flag_through() {
    let mut c = ProjectScanCache::new();
    let ctx = local_ctx();
    c.insert(ctx.clone(), snapshot_with(vec![proj("pa", &["sa"])]), 1, 2, FsKind::Local);
    let quiet = process_local_file_event(&mut c, &ctx, &fc("pa", "sa", false, false, false, Some(10)));
    assert!(!quiet.session_list_changed);
    let flagged = process_local_file_event(&mut c, &ctx, &fc("pa", "sa", false, false, true, Some(11)));
    assert!(flagged.session_list_changed, "the watcher's own flag SHALL survive");
    assert!(c.has_entry(&ctx));
}

#[test]
fn remote_event_keeps_local_entries_and_flag() {
    let mut c = ProjectScanCache::new();
    c.insert(local_ctx(), snapshot_with(vec![proj("pa", &["sa"])]), 1, 2, FsKind::Local);
    let e = process_remote_file_event(&mut c, Some(&ssh_ctx()), &fc("pr", "unknown", false, false, false, Some(42)));
    assert!(!e.session_list_changed);
    assert!(c.has_entry(&local_ctx()));
    assert_eq!(c.lookup_mtime_overlay(&ssh_ctx(), "pr"), Some(42));
    assert_eq!(c.lookup_mtime_overlay(&local_ctx(), "pr"), None);
}
