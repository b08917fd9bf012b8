//! Short-lived cache of the repository groups computed from a project
//! scan. An entry is served only to a reader that captured the same root,
//! context and scan-invalidation generations, within ten seconds of its
//! writing; a result is stored only when no generation moved while it was
//! computed.

use std::sync::Arc;

use vstd::prelude::*;

use crate::clock::{instant_now, millis_since};
use crate::group::RepositoryGroup;

verus! {

/// Time-to-live of a groups cache entry, in milliseconds.
pub const GROUPS_CACHE_TTL_MS: u64 = 10_000;

/// The generations a reader captured before computing or reading groups:
/// root directory, active context, and project-scan invalidation.
#[derive(Debug, Clone, Copy, PartialEq, Eq, Structural)]
pub struct GroupsGenerations {
    pub root: u64,
    pub context: u64,
    pub scan_invalidation: u64,
}

/// The stored groups with the generations and clock reading of their
/// writing.
struct GroupsCacheEntry {
    groups: Arc<Vec<RepositoryGroup>>,
    generations: GroupsGenerations,
    created_ms: u64,
}

/// Mathematical reading of the stored entry.
pub struct GroupsEntryView {
    pub groups: Arc<Vec<RepositoryGroup>>,
    pub generations: GroupsGenerations,
    pub created_ms: u64,
}

/// An entry written at `created_ms` is served at `now_ms` when less than
/// the time-to-live has passed (a reading earlier than the writing counts
/// as no time passed).
pub open spec fn groups_fresh(created_ms: u64, now_ms: u64) -> bool {
    (now_ms as int) < created_ms as int + GROUPS_CACHE_TTL_MS as int
}

/// What a reader with generations `g` gets at `now_ms` from entry `e`.
pub open spec fn groups_served(e: Option<GroupsEntryView>, g: GroupsGenerations, now_ms: u64) -> Option<
    Arc<Vec<RepositoryGroup>>,
> {
    match e {
        Some(v) => if v.generations == g && groups_fresh(v.created_ms, now_ms) {
            Some(v.groups)
        } else {
            None
        },
        None => None,
    }
}

/// The cache of repository groups (one per data API instance).
pub struct GroupsCache {
    entry: Option<GroupsCacheEntry>,
    clock_origin: std::time::Instant,
}

impl GroupsCache {
    /// The stored entry, if any.
    pub closed spec fn entry_view(&self) -> Option<GroupsEntryView> {
        match self.entry {
            Some(e) => Some(GroupsEntryView { groups: e.groups, generations: e.generations, created_ms: e.created_ms }),
            None => None,
        }
    }

    /// An empty cache whose clock starts now.
    pub fn new() -> (r: Self)
        ensures
            r.entry_view() is None,
    {
        GroupsCache { entry: None, clock_origin: instant_now() }
    }

    /// Milliseconds on this cache's monotonic clock.
    pub fn now_ms(&self) -> u64 {
        millis_since(&self.clock_origin)
    }

    /// The stored groups for a reader that captured generations `g`, at
    /// clock reading `now_ms`: only an entry written under the same
    /// generations and still fresh is served.
    pub fn lookup_at(&self, g: GroupsGenerations, now_ms: u64) -> (r: Option<Arc<Vec<RepositoryGroup>>>)
        ensures
            r == groups_served(self.entry_view(), g, now_ms),
    {
        match &self.entry {
            Some(e) => {
                if e.generations == g && (now_ms < e.created_ms || now_ms - e.created_ms < GROUPS_CACHE_TTL_MS) {
                    Some(Arc::clone(&e.groups))
                } else {
                    None
                }
            },
            None => None,
        }
    }

    /// [`GroupsCache::lookup_at`] at the current clock reading.
    pub fn lookup(&self, g: GroupsGenerations) -> (r: Option<Arc<Vec<RepositoryGroup>>>)
        ensures
            exists|t: u64| r == groups_served(self.entry_view(), g, t),
    {
        let now = self.now_ms();
        self.lookup_at(g, now)
    }

    /// Stores groups computed by a reader that captured `captured`, at
    /// clock reading `now_ms`, when the generations read after computing
    /// (`current`) are still the same; otherwise leaves the cache as it is.
    /// Returns whether the groups were stored.
    pub fn store_at(
        &mut self,
        groups: Arc<Vec<RepositoryGroup>>,
        captured: GroupsGenerations,
        current: GroupsGenerations,
        now_ms: u64,
    ) -> (r: bool)
        ensures
            r == (captured == current),
            r ==> final(self).entry_view() == Some(
                GroupsEntryView { groups, generations: captured, created_ms: now_ms },
            ),
            !r ==> final(self).entry_view() == old(self).entry_view(),
    {
        if captured == current {
            self.entry = Some(GroupsCacheEntry { groups, generations: captured, created_ms: now_ms });
            true
        } else {
            false
        }
    }

    /// [`GroupsCache::store_at`] at the current clock reading.
    pub fn store(&mut self, groups: Arc<Vec<RepositoryGroup>>, captured: GroupsGenerations, current: GroupsGenerations) -> (r: bool)
        ensures
            r == (captured == current),
            r ==> exists|t: u64| final(self).entry_view() == Some(
                GroupsEntryView { groups, generations: captured, created_ms: t },
            ),
            !r ==> final(self).entry_view() == old(self).entry_view(),
    {
        let now = self.now_ms();
        self.store_at(groups, captured, current, now)
    }
}

} // verus!
