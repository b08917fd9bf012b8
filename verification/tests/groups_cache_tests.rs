use std::sync::Arc;

use cdt_api::group::{RepositoryGroup, Worktree};
use cdt_api::groups_cache::{GroupsCache, GroupsGenerations, GROUPS_CACHE_TTL_MS};

fn groups(id: &str) -> Arc<Vec<RepositoryGroup>> {
    Arc::new(vec![RepositoryGroup {
        id: id.to_string(),
        name: id.to_string(),
        worktrees: vec![Worktree { id: format!("{id}-wt"), name: "main".to_string(), cwd_relative_to_repo_root: None }],
    }])
}

fn gens(root: u64, context: u64, scan_invalidation: u64) -> GroupsGenerations {
    GroupsGenerations { root, context, scan_invalidation }
}

#[test]
fn empty_cache_misses() {
    let c = GroupsCache::new();
    assert!(c.lookup_at(gens(0, 0, 0), 0).is_none());
    assert!(c.lookup(gens(0, 0, 0)).is_none());
}

#[test]
fn stored_groups_are_served_within_ttl_to_same_generations() {
    let mut c = GroupsCache::new();
    let g = gens(1, 2, 3);
    let data = groups("repo");
    assert!(c.store_at(data.clone(), g, g, 1_000));
    let hit = c.lookup_at(g, 1_000 + GROUPS_CACHE_TTL_MS - 1).expect("fresh hit");
    assert!(Arc::ptr_eq(&hit, &data));
    assert!(c.lookup_at(g, 1_000 + GROUPS_CACHE_TTL_MS).is_none());
    assert!(c.lookup_at(g, 500).is_some(), "an earlier reading counts as no time passed");
}

#[test]
fn other_generations_miss() {
    let mut c = GroupsCache::new();
    let g = gens(1, 2, 3);
    assert!(c.store_at(groups("repo"), g, g, 0));
    assert!(c.lookup_at(gens(2, 2, 3), 1).is_none());
    assert!(c.lookup_at(gens(1, 3, 3), 1).is_none());
    assert!(c.lookup_at(gens(1, 2, 4), 1).is_none());
}

#[test]
fn store_is_skipped_when_a_generation_moved() {
    let mut c = GroupsCache::new();
    let g = gens(1, 1, 1);
    assert!(!c.store_at(groups("stale"), g, gens(1, 1, 2), 0));
    assert!(c.lookup_at(g, 1).is_none());
    assert!(c.store_at(groups("fresh"), g, g, 0));
    assert!(!c.store_at(groups("late"), g, gens(2, 1, 1), 5));
    assert_eq!(c.lookup_at(g, 6).expect("kept")[0].id, "fresh");
}

#[test]
fn store_at_current_clock_is_served() {
    let mut c = GroupsCache::new();
    let g = gens(0, 0, 0);
    assert!(c.store(groups("now"), g, g));
    assert_eq!(c.lookup(g).expect("fresh")[0].id, "now");
}
