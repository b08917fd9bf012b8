//! Process-wide cache of project-scan results, keyed by backend context.
//!
//! An entry is served only while the root and context generations it was
//! written under are still current and its time-to-live (5 minutes for the
//! local machine, which a file watcher invalidates actively, 10 seconds for
//! SSH contexts) has not run out. Structural file events clear the local
//! entries; an internal invalidation generation lets a scan that was in
//! flight while the cache was cleared notice it and drop its stale snapshot.
//! A per-project mtime overlay records the newest modification time the
//! watcher has observed, so listings can report it without a rescan.

use std::sync::Arc;

use vstd::prelude::*;

use crate::assoc::{
    has_key, keys_unique, lemma_filter_step, lemma_take_unique, lemma_to_map_empty,
    lemma_to_map_index, lemma_to_map_len, lemma_to_map_lookup, lemma_to_map_push,
    lemma_to_map_remove, lemma_to_map_update, map_filter, to_map,
};
use crate::clock::{instant_now, millis_since};
use crate::context::{ContextId, FsKind};
use crate::file_event::{FileChangeEvent, FileChangeEventView};
use crate::project::{Project, ProjectView, projects_view};
use crate::text::{str_eq, strings_contain, strs_view};

verus! {

/// Time-to-live of a local entry, in milliseconds.
pub const LOCAL_CACHE_TTL_MS: u64 = 300_000;

/// Time-to-live of an SSH entry, in milliseconds.
pub const SSH_CACHE_TTL_MS: u64 = 10_000;

/// Time-to-live for entries written under a backend of the given kind.
pub open spec fn ttl_ms(kind: FsKind) -> int {
    match kind {
        FsKind::Local => LOCAL_CACHE_TTL_MS as int,
        FsKind::Ssh => SSH_CACHE_TTL_MS as int,
    }
}

/// The reading of a context identity.
pub type CtxV = (FsKind, Seq<char>, Seq<char>);

/// Overlay key: a context and a project id within it.
pub type OverlayKey = (CtxV, Seq<char>);

/// Mathematical reading of one cache entry.
pub struct EntryView {
    pub snapshot: Seq<ProjectView>,
    pub root_generation: u64,
    pub context_generation: u64,
    pub inserted_at_ms: u64,
    pub fs_kind: FsKind,
}

/// `n + 1`, wrapping at `u64::MAX`.
pub open spec fn bump(n: u64) -> u64 {
    if n == u64::MAX {
        0
    } else {
        (n + 1) as u64
    }
}

/// An entry written at `inserted_at_ms` is still within its time-to-live at
/// `now_ms` (a reading earlier than the insertion counts as no time passed).
pub open spec fn is_fresh(e: EntryView, now_ms: u64) -> bool {
    now_ms as int <= e.inserted_at_ms as int + ttl_ms(e.fs_kind)
}

/// A lookup of `ctx` under generations `rg`/`cg` at `now_ms` is a hit.
pub open spec fn is_hit(m: Map<CtxV, EntryView>, ctx: CtxV, rg: u64, cg: u64, now_ms: u64) -> bool {
    &&& m.contains_key(ctx)
    &&& m[ctx].root_generation == rg
    &&& m[ctx].context_generation == cg
    &&& is_fresh(m[ctx], now_ms)
}

/// Sessions of the first project in `snap` whose id is `pid`.
pub open spec fn first_project_sessions(snap: Seq<ProjectView>, pid: Seq<char>) -> Option<Seq<Seq<char>>>
    decreases snap.len(),
{
    if snap.len() == 0 {
        None
    } else if snap[0].id == pid {
        Some(snap[0].sessions)
    } else {
        first_project_sessions(snap.drop_first(), pid)
    }
}

/// The first project with id `pid` in `snap` lists session `sid`.
pub open spec fn snapshot_has_session(snap: Seq<ProjectView>, pid: Seq<char>, sid: Seq<char>) -> bool {
    match first_project_sessions(snap, pid) {
        Some(ss) => ss.contains(sid),
        None => false,
    }
}

/// `Some(m)` with `m` the newest-session mtime of the last project with id
/// `pid` in `snap`; `None` when no project has that id.
pub open spec fn live_project_mtime(snap: Seq<ProjectView>, pid: Seq<char>) -> Option<Option<i64>>
    decreases snap.len(),
{
    if snap.len() == 0 {
        None
    } else if snap.last().id == pid {
        Some(snap.last().most_recent_session)
    } else {
        live_project_mtime(snap.drop_last(), pid)
    }
}

/// Whether the overlay hint `v` for key `k` survives a rescan of context
/// `ctx` that produced `snap` (or, with `snap == None`, an explicit removal
/// of `ctx`): hints of other contexts always survive; within `ctx`, a hint
/// survives a rescan only while its project is still listed and either has
/// no recorded mtime or one older than the hint.
pub open spec fn overlay_keeps(ctx: CtxV, snap: Option<Seq<ProjectView>>, k: OverlayKey, v: i64) -> bool {
    if k.0 != ctx {
        true
    } else {
        match snap {
            None => false,
            Some(sn) => match live_project_mtime(sn, k.1) {
                Some(Some(m)) => m < v,
                Some(None) => true,
                None => false,
            },
        }
    }
}

fn find_live_mtime(snap: &Vec<Project>, project_id: &str) -> (r: Option<Option<i64>>)
    ensures
        r == live_project_mtime(projects_view(snap@), project_id@),
{
    let ghost full = projects_view(snap@);
    let mut i: usize = snap.len();
    assert(full.take(i as int) =~= full);
    while i > 0
        invariant
            i <= snap@.len(),
            full == projects_view(snap@),
            live_project_mtime(full.take(i as int), project_id@) == live_project_mtime(full, project_id@),
        decreases i,
    {
        let j = i - 1;
        assert(full.take(i as int).last() == snap@[j as int]@);
        assert(full.take(i as int).drop_last() =~= full.take(j as int));
        if str_eq(snap[j].id.as_str(), project_id) {
            return Some(snap[j].most_recent_session);
        }
        i = j;
    }
    assert(full.take(0).len() == 0);
    None
}

fn snapshot_contains_session(snap: &Vec<Project>, project_id: &str, session_id: &str) -> (r: bool)
    ensures
        r == snapshot_has_session(projects_view(snap@), project_id@, session_id@),
{
    let ghost full = projects_view(snap@);
    let mut i: usize = 0;
    assert(full.skip(0) =~= full);
    while i < snap.len()
        invariant
            i <= snap@.len(),
            full == projects_view(snap@),
            first_project_sessions(full.skip(i as int), project_id@) == first_project_sessions(full, project_id@),
        decreases snap@.len() - i,
    {
        assert(full.skip(i as int)[0] == snap@[i as int]@);
        assert(full.skip(i as int).drop_first() =~= full.skip(i + 1));
        if str_eq(snap[i].id.as_str(), project_id) {
            let r = strings_contain(snap[i].sessions.as_slice(), session_id);
            assert(strs_view(snap@[i as int].sessions@) =~= snap@[i as int].sessions.deep_view());
            return r;
        }
        i = i + 1;
    }
    assert(full.skip(i as int).len() == 0);
    false
}

struct CacheEntry {
    snapshot: Arc<Vec<Project>>,
    root_generation: u64,
    context_generation: u64,
    inserted_at_ms: u64,
    fs_kind: FsKind,
}

impl CacheEntry {
    spec fn ev(&self) -> EntryView {
        EntryView {
            snapshot: projects_view(self.snapshot@),
            root_generation: self.root_generation,
            context_generation: self.context_generation,
            inserted_at_ms: self.inserted_at_ms,
            fs_kind: self.fs_kind,
        }
    }
}

struct ScanSlot {
    ctx: ContextId,
    entry: CacheEntry,
}

struct OverlaySlot {
    ctx: ContextId,
    project_id: String,
    mtime_ms: i64,
}

spec fn slots_seq(s: Seq<ScanSlot>) -> Seq<(CtxV, EntryView)> {
    s.map_values(|x: ScanSlot| (x.ctx@, x.entry.ev()))
}

spec fn overlay_seq(s: Seq<OverlaySlot>) -> Seq<(OverlayKey, i64)> {
    s.map_values(|x: OverlaySlot| ((x.ctx@, x.project_id@), x.mtime_ms))
}

/// Cumulative hit statistics.
#[derive(Debug, Clone, Copy)]
pub struct ProjectScanCacheStats {
    pub hits: u64,
    pub lookups: u64,
}

/// Scan-result cache owned by the data API (one per instance, no global).
pub struct ProjectScanCache {
    entries: Vec<ScanSlot>,
    invalidation_generation: u64,
    in_flight_scans: u32,
    mtime_overlay: Vec<OverlaySlot>,
    hits: u64,
    lookups: u64,
    clock_origin: std::time::Instant,
}

impl ProjectScanCache {
    /// The entries, as a map from context to entry.
    pub closed spec fn entries_map(&self) -> Map<CtxV, EntryView> {
        to_map(slots_seq(self.entries@))
    }

    /// The mtime overlay, as a map from (context, project id) to mtime (ms).
    pub closed spec fn overlay_map(&self) -> Map<OverlayKey, i64> {
        to_map(overlay_seq(self.mtime_overlay@))
    }

    /// The internal invalidation generation.
    pub closed spec fn inv_gen(&self) -> u64 {
        self.invalidation_generation
    }

    /// Number of scans begun and not yet finished or aborted.
    pub closed spec fn in_flight(&self) -> u32 {
        self.in_flight_scans
    }

    /// Cumulative hits.
    pub closed spec fn hit_count(&self) -> u64 {
        self.hits
    }

    /// Cumulative lookups.
    pub closed spec fn lookup_count(&self) -> u64 {
        self.lookups
    }

    /// Internal consistency: no context and no overlay key occurs twice.
    pub closed spec fn wf(&self) -> bool {
        &&& keys_unique(slots_seq(self.entries@))
        &&& keys_unique(overlay_seq(self.mtime_overlay@))
    }

    /// An empty cache whose clock starts now.
    pub fn new() -> (r: Self)
        ensures
            r.wf(),
            r.entries_map() == Map::<CtxV, EntryView>::empty(),
            r.overlay_map() == Map::<OverlayKey, i64>::empty(),
            r.inv_gen() == 0,
            r.in_flight() == 0,
            r.hit_count() == 0,
            r.lookup_count() == 0,
    {
        let r = ProjectScanCache {
            entries: Vec::new(),
            invalidation_generation: 0,
            in_flight_scans: 0,
            mtime_overlay: Vec::new(),
            hits: 0,
            lookups: 0,
            clock_origin: instant_now(),
        };
        proof {
            lemma_to_map_empty(slots_seq(r.entries@));
            lemma_to_map_empty(overlay_seq(r.mtime_overlay@));
        }
        r
    }

    /// Milliseconds on this cache's monotonic clock.
    pub fn now_ms(&self) -> u64 {
        millis_since(&self.clock_origin)
    }

    fn find_slot(&self, ctx: &ContextId) -> (r: Option<usize>)
        ensures
            r matches Some(i) ==> i < self.entries@.len() && self.entries@[i as int].ctx@ == ctx@,
            r is None ==> !has_key(slots_seq(self.entries@), ctx@),
    {
        let mut i: usize = 0;
        while i < self.entries.len()
            invariant
                i <= self.entries@.len(),
                forall|j: int| 0 <= j < i ==> #[trigger] self.entries@[j].ctx@ != ctx@,
            decreases self.entries@.len() - i,
        {
            if self.entries[i].ctx.same_as(ctx) {
                return Some(i);
            }
            i = i + 1;
        }
        proof {
            let s = slots_seq(self.entries@);
            if has_key(s, ctx@) {
                let j = choose|j: int| 0 <= j < s.len() && #[trigger] s[j].0 == ctx@;
                assert(s[j].0 == self.entries@[j].ctx@);
            }
        }
        None
    }

    /// Tries to serve `ctx` at clock reading `now_ms`: a hit needs an entry
    /// for `ctx` written under the generations `rg`/`cg` and still within
    /// its time-to-live. Every call counts as a lookup; hits are counted too.
    pub fn lookup_at(&mut self, ctx: &ContextId, rg: u64, cg: u64, now_ms: u64) -> (r: Option<Arc<Vec<Project>>>)
        requires
            old(self).wf(),
        ensures
            final(self).wf(),
            final(self).entries_map() == old(self).entries_map(),
            final(self).overlay_map() == old(self).overlay_map(),
            final(self).inv_gen() == old(self).inv_gen(),
            final(self).in_flight() == old(self).in_flight(),
            final(self).lookup_count() == bump(old(self).lookup_count()),
            r is Some <==> is_hit(old(self).entries_map(), ctx@, rg, cg, now_ms),
            r matches Some(s) ==> projects_view(s@) == old(self).entries_map()[ctx@].snapshot,
            final(self).hit_count() == (if r is Some { bump(old(self).hit_count()) } else { old(self).hit_count() }),
    {
        self.lookups = if self.lookups == u64::MAX { 0 } else { self.lookups + 1 };
        let idx = self.find_slot(ctx);
        match idx {
            None => {
                proof {
                    assert(!self.entries_map().contains_key(ctx@));
                }
                None
            },
            Some(i) => {
                proof {
                    lemma_to_map_index(slots_seq(self.entries@), i as int);
                }
                let e = &self.entries[i].entry;
                if e.root_generation != rg || e.context_generation != cg {
                    return None;
                }
                let ttl = match e.fs_kind {
                    FsKind::Local => LOCAL_CACHE_TTL_MS,
                    FsKind::Ssh => SSH_CACHE_TTL_MS,
                };
                let fresh = if now_ms >= e.inserted_at_ms {
                    now_ms - e.inserted_at_ms <= ttl
                } else {
                    true
                };
                if !fresh {
                    return None;
                }
                let snap = e.snapshot.clone();
                self.hits = if self.hits == u64::MAX { 0 } else { self.hits + 1 };
                Some(snap)
            },
        }
    }

    /// [`Self::lookup_at`] at the current reading of the cache's clock.
    /// Which reading that is depends on time: the result is that of
    /// [`Self::lookup_at`] at some reading, and the generation and presence
    /// conditions of a hit hold whatever the reading.
    pub fn lookup(&mut self, ctx: &ContextId, rg: u64, cg: u64) -> (r: Option<Arc<Vec<Project>>>)
        requires
            old(self).wf(),
        ensures
            final(self).wf(),
            final(self).entries_map() == old(self).entries_map(),
            final(self).overlay_map() == old(self).overlay_map(),
            final(self).inv_gen() == old(self).inv_gen(),
            final(self).in_flight() == old(self).in_flight(),
            final(self).lookup_count() == bump(old(self).lookup_count()),
            r matches Some(s) ==> {
                &&& old(self).entries_map().contains_key(ctx@)
                &&& old(self).entries_map()[ctx@].root_generation == rg
                &&& old(self).entries_map()[ctx@].context_generation == cg
                &&& projects_view(s@) == old(self).entries_map()[ctx@].snapshot
            },
            !(old(self).entries_map().contains_key(ctx@) && old(self).entries_map()[ctx@].root_generation == rg
                && old(self).entries_map()[ctx@].context_generation == cg) ==> r is None,
            exists|t: u64| (r is Some <==> #[trigger] is_hit(old(self).entries_map(), ctx@, rg, cg, t)),
            final(self).hit_count() == (if r is Some { bump(old(self).hit_count()) } else { old(self).hit_count() }),
    {
        let now = self.now_ms();
        self.lookup_at(ctx, rg, cg, now)
    }

    /// Writes `entry` under `ctx`, replacing any entry already there.
    fn put_entry(&mut self, ctx: ContextId, entry: CacheEntry)
        requires
            old(self).wf(),
        ensures
            final(self).wf(),
            final(self).entries_map() == old(self).entries_map().insert(ctx@, entry.ev()),
            final(self).overlay_map() == old(self).overlay_map(),
            final(self).inv_gen() == old(self).inv_gen(),
            final(self).in_flight() == old(self).in_flight(),
            final(self).hit_count() == old(self).hit_count(),
            final(self).lookup_count() == old(self).lookup_count(),
    {
        let ghost old_s = slots_seq(self.entries@);
        let ghost kv = (ctx@, entry.ev());
        match self.find_slot(&ctx) {
            Some(i) => {
                self.entries.set(i, ScanSlot { ctx, entry });
                proof {
                    assert(slots_seq(self.entries@) =~= old_s.update(i as int, (old_s[i as int].0, kv.1)));
                    lemma_to_map_update(old_s, i as int, kv.1);
                }
            },
            None => {
                self.entries.push(ScanSlot { ctx, entry });
                proof {
                    assert(slots_seq(self.entries@) =~= old_s.push(kv));
                    lemma_to_map_push(old_s, kv.0, kv.1);
                }
            },
        }
    }

    /// Unconditionally writes `snapshot` for `ctx`, stamped with clock
    /// reading `now_ms` (no race check; see [`Self::try_insert_at`]).
    pub fn insert_at(
        &mut self,
        ctx: ContextId,
        snapshot: Arc<Vec<Project>>,
        root_generation: u64,
        context_generation: u64,
        fs_kind: FsKind,
        now_ms: u64,
    )
        requires
            old(self).wf(),
        ensures
            final(self).wf(),
            final(self).entries_map() == old(self).entries_map().insert(
                ctx@,
                EntryView {
                    snapshot: projects_view(snapshot@),
                    root_generation,
                    context_generation,
                    inserted_at_ms: now_ms,
                    fs_kind,
                },
            ),
            final(self).overlay_map() == old(self).overlay_map(),
            final(self).inv_gen() == old(self).inv_gen(),
            final(self).in_flight() == old(self).in_flight(),
            final(self).hit_count() == old(self).hit_count(),
            final(self).lookup_count() == old(self).lookup_count(),
    {
        let entry = CacheEntry {
            snapshot,
            root_generation,
            context_generation,
            inserted_at_ms: now_ms,
            fs_kind,
        };
        self.put_entry(ctx, entry);
    }

    /// [`Self::insert_at`] stamped with the current clock reading, which is
    /// left unstated.
    pub fn insert(
        &mut self,
        ctx: ContextId,
        snapshot: Arc<Vec<Project>>,
        root_generation: u64,
        context_generation: u64,
        fs_kind: FsKind,
    )
        requires
            old(self).wf(),
        ensures
            final(self).wf(),
            final(self).entries_map().dom() == old(self).entries_map().dom().insert(ctx@),
            forall|k: CtxV| k != ctx@ && #[trigger] old(self).entries_map().contains_key(k)
                ==> final(self).entries_map()[k] == old(self).entries_map()[k],
            final(self).entries_map()[ctx@].snapshot == projects_view(snapshot@),
            final(self).entries_map()[ctx@].root_generation == root_generation,
            final(self).entries_map()[ctx@].context_generation == context_generation,
            final(self).entries_map()[ctx@].fs_kind == fs_kind,
            final(self).overlay_map() == old(self).overlay_map(),
            final(self).inv_gen() == old(self).inv_gen(),
            final(self).in_flight() == old(self).in_flight(),
    {
        let now = self.now_ms();
        self.insert_at(ctx, snapshot, root_generation, context_generation, fs_kind, now);
    }

    /// Whether `ctx` has an entry.
    pub fn has_entry(&self, ctx: &ContextId) -> (r: bool)
        requires
            self.wf(),
        ensures
            r == self.entries_map().contains_key(ctx@),
    {
        match self.find_slot(ctx) {
            Some(i) => {
                proof {
                    lemma_to_map_index(slots_seq(self.entries@), i as int);
                }
                true
            },
            None => false,
        }
    }

    /// Whether the entry of `ctx` records session `session_id` under the
    /// (first) project with id `project_id`. False when `ctx` has no entry.
    pub fn contains_session_id(&self, ctx: &ContextId, project_id: &str, session_id: &str) -> (r: bool)
        requires
            self.wf(),
        ensures
            r == (self.entries_map().contains_key(ctx@) && snapshot_has_session(
                self.entries_map()[ctx@].snapshot,
                project_id@,
                session_id@,
            )),
    {
        match self.find_slot(ctx) {
            Some(i) => {
                proof {
                    lemma_to_map_index(slots_seq(self.entries@), i as int);
                }
                snapshot_contains_session(&self.entries[i].entry.snapshot, project_id, session_id)
            },
            None => false,
        }
    }

    /// Keeps exactly the overlay hints that [`overlay_keeps`] lets survive.
    fn retain_overlay(&mut self, ctx: &ContextId, snap: Option<&Vec<Project>>)
        requires
            old(self).wf(),
        ensures
            final(self).wf(),
            final(self).overlay_map() == map_filter(
                old(self).overlay_map(),
                |k: OverlayKey, v: i64| overlay_keeps(ctx@, match snap { Some(sn) => Some(projects_view(sn@)), None => None }, k, v),
            ),
            final(self).entries_map() == old(self).entries_map(),
            final(self).inv_gen() == old(self).inv_gen(),
            final(self).in_flight() == old(self).in_flight(),
            final(self).hit_count() == old(self).hit_count(),
            final(self).lookup_count() == old(self).lookup_count(),
    {
        let ghost snap_v = match snap { Some(sn) => Some(projects_view(sn@)), None => None };
        let ghost p = |k: OverlayKey, v: i64| overlay_keeps(ctx@, snap_v, k, v);
        let ghost s = overlay_seq(self.mtime_overlay@);
        let mut rest: Vec<OverlaySlot> = Vec::new();
        std::mem::swap(&mut rest, &mut self.mtime_overlay);
        let mut out: Vec<OverlaySlot> = Vec::new();
        proof {
            lemma_to_map_empty(overlay_seq(out@));
            assert(s.take(0).len() == 0);
            lemma_to_map_empty(s.take(0));
            assert(to_map(overlay_seq(out@)) =~= map_filter(to_map(s.take(0)), p));
            assert(overlay_seq(rest@) =~= s.skip(0));
        }
        while rest.len() > 0
            invariant
                keys_unique(s),
                s.len() >= rest@.len(),
                overlay_seq(rest@) == s.skip(s.len() - rest@.len()),
                keys_unique(overlay_seq(out@)),
                to_map(overlay_seq(out@)) == map_filter(to_map(s.take(s.len() - rest@.len())), p),
                snap_v == (match snap { Some(sn) => Some(projects_view(sn@)), None => None }),
                p == (|k: OverlayKey, v: i64| overlay_keeps(ctx@, snap_v, k, v)),
            decreases rest@.len(),
        {
            let ghost n = s.len() - rest@.len();
            let ghost rest_old = rest@;
            let slot = rest.remove(0);
            assert(overlay_seq(rest_old)[0] == s.skip(n)[0]);
            assert(s[n] == ((slot.ctx@, slot.project_id@), slot.mtime_ms));
            assert(overlay_seq(rest@) =~= overlay_seq(rest_old).skip(1));
            assert(overlay_seq(rest@) =~= s.skip(n + 1));
            proof {
                lemma_filter_step(s, n, overlay_seq(out@), p);
            }
            let keep = if !slot.ctx.same_as(ctx) {
                true
            } else {
                match snap {
                    None => false,
                    Some(sn) => match find_live_mtime(sn, slot.project_id.as_str()) {
                        Some(Some(m)) => m < slot.mtime_ms,
                        Some(None) => true,
                        None => false,
                    },
                }
            };
            if keep {
                let ghost before = overlay_seq(out@);
                out.push(slot);
                assert(overlay_seq(out@) =~= before.push(s[n]));
            }
        }
        assert(s.take(s.len() as int) =~= s);
        self.mtime_overlay = out;
    }

    /// Removes every local entry (SSH entries stay) and bumps the
    /// invalidation generation. The mtime overlay is kept.
    pub fn invalidate_local(&mut self)
        requires
            old(self).wf(),
        ensures
            final(self).wf(),
            final(self).entries_map() == map_filter(
                old(self).entries_map(),
                |k: CtxV, e: EntryView| e.fs_kind != FsKind::Local,
            ),
            final(self).overlay_map() == old(self).overlay_map(),
            final(self).inv_gen() == bump(old(self).inv_gen()),
            final(self).in_flight() == old(self).in_flight(),
            final(self).hit_count() == old(self).hit_count(),
            final(self).lookup_count() == old(self).lookup_count(),
    {
        let ghost p = |k: CtxV, e: EntryView| e.fs_kind != FsKind::Local;
        let ghost s = slots_seq(self.entries@);
        let mut rest: Vec<ScanSlot> = Vec::new();
        std::mem::swap(&mut rest, &mut self.entries);
        let mut out: Vec<ScanSlot> = Vec::new();
        proof {
            lemma_to_map_empty(slots_seq(out@));
            assert(s.take(0).len() == 0);
            lemma_to_map_empty(s.take(0));
            assert(to_map(slots_seq(out@)) =~= map_filter(to_map(s.take(0)), p));
            assert(slots_seq(rest@) =~= s.skip(0));
        }
        while rest.len() > 0
            invariant
                keys_unique(s),
                s.len() >= rest@.len(),
                slots_seq(rest@) == s.skip(s.len() - rest@.len()),
                keys_unique(slots_seq(out@)),
                to_map(slots_seq(out@)) == map_filter(to_map(s.take(s.len() - rest@.len())), p),
                p == (|k: CtxV, e: EntryView| e.fs_kind != FsKind::Local),
            decreases rest@.len(),
        {
            let ghost n = s.len() - rest@.len();
            let ghost rest_old = rest@;
            let slot = rest.remove(0);
            assert(slots_seq(rest_old)[0] == s.skip(n)[0]);
            assert(s[n] == (slot.ctx@, slot.entry.ev()));
            assert(slots_seq(rest@) =~= slots_seq(rest_old).skip(1));
            assert(slots_seq(rest@) =~= s.skip(n + 1));
            proof {
                lemma_filter_step(s, n, slots_seq(out@), p);
            }
            if slot.entry.fs_kind != FsKind::Local {
                let ghost before = slots_seq(out@);
                out.push(slot);
                assert(slots_seq(out@) =~= before.push(s[n]));
            }
        }
        assert(s.take(s.len() as int) =~= s);
        self.entries = out;
        self.invalidation_generation = if self.invalidation_generation == u64::MAX {
            0
        } else {
            self.invalidation_generation + 1
        };
    }

    /// Removes every entry and every overlay hint, and bumps the
    /// invalidation generation (explicit context switch or root change).
    pub fn invalidate_all(&mut self)
        requires
            old(self).wf(),
        ensures
            final(self).wf(),
            final(self).entries_map() == Map::<CtxV, EntryView>::empty(),
            final(self).overlay_map() == Map::<OverlayKey, i64>::empty(),
            final(self).inv_gen() == bump(old(self).inv_gen()),
            final(self).in_flight() == old(self).in_flight(),
            final(self).hit_count() == old(self).hit_count(),
            final(self).lookup_count() == old(self).lookup_count(),
    {
        self.entries = Vec::new();
        self.mtime_overlay = Vec::new();
        proof {
            lemma_to_map_empty(slots_seq(self.entries@));
            lemma_to_map_empty(overlay_seq(self.mtime_overlay@));
        }
        self.invalidation_generation = if self.invalidation_generation == u64::MAX {
            0
        } else {
            self.invalidation_generation + 1
        };
    }

    /// Removes the entry of `ctx` (bumping the invalidation generation when
    /// there was one) and every overlay hint of `ctx`.
    pub fn invalidate(&mut self, ctx: &ContextId)
        requires
            old(self).wf(),
        ensures
            final(self).wf(),
            final(self).entries_map() == old(self).entries_map().remove(ctx@),
            final(self).overlay_map() == map_filter(
                old(self).overlay_map(),
                |k: OverlayKey, v: i64| k.0 != ctx@,
            ),
            final(self).inv_gen() == (if old(self).entries_map().contains_key(ctx@) {
                bump(old(self).inv_gen())
            } else {
                old(self).inv_gen()
            }),
            final(self).in_flight() == old(self).in_flight(),
            final(self).hit_count() == old(self).hit_count(),
            final(self).lookup_count() == old(self).lookup_count(),
    {
        let ghost s = slots_seq(self.entries@);
        match self.find_slot(ctx) {
            Some(i) => {
                let _removed = self.entries.remove(i);
                proof {
                    lemma_to_map_index(s, i as int);
                    assert(slots_seq(self.entries@) =~= s.remove(i as int));
                    lemma_to_map_remove(s, i as int);
                }
                self.invalidation_generation = if self.invalidation_generation == u64::MAX {
                    0
                } else {
                    self.invalidation_generation + 1
                };
            },
            None => {
                proof {
                    assert(!to_map(s).contains_key(ctx@));
                    assert(to_map(s).remove(ctx@) =~= to_map(s));
                }
            },
        }
        let ghost mid = self.overlay_map();
        self.retain_overlay(ctx, None);
        proof {
            assert(self.overlay_map() =~= map_filter(mid, |k: OverlayKey, v: i64| k.0 != ctx@));
        }
    }

    /// Writes `snapshot` for `ctx` (stamped `now_ms`) only when no
    /// invalidation happened since the scan recorded `recorded_generation`;
    /// otherwise drops it and returns false. Does not touch the in-flight
    /// count or the overlay.
    pub fn try_insert_at(
        &mut self,
        ctx: ContextId,
        snapshot: Arc<Vec<Project>>,
        root_generation: u64,
        context_generation: u64,
        fs_kind: FsKind,
        recorded_generation: u64,
        now_ms: u64,
    ) -> (r: bool)
        requires
            old(self).wf(),
        ensures
            final(self).wf(),
            r == (recorded_generation == old(self).inv_gen()),
            r ==> final(self).entries_map() == old(self).entries_map().insert(
                ctx@,
                EntryView {
                    snapshot: projects_view(snapshot@),
                    root_generation,
                    context_generation,
                    inserted_at_ms: now_ms,
                    fs_kind,
                },
            ),
            !r ==> final(self).entries_map() == old(self).entries_map(),
            final(self).overlay_map() == old(self).overlay_map(),
            final(self).inv_gen() == old(self).inv_gen(),
            final(self).in_flight() == old(self).in_flight(),
            final(self).hit_count() == old(self).hit_count(),
            final(self).lookup_count() == old(self).lookup_count(),
    {
        if recorded_generation != self.invalidation_generation {
            return false;
        }
        self.insert_at(ctx, snapshot, root_generation, context_generation, fs_kind, now_ms);
        true
    }

    /// [`Self::try_insert_at`] stamped with the current clock reading: the
    /// snapshot is written only if no invalidation happened since
    /// `recorded_generation` was read.
    pub fn try_insert(
        &mut self,
        ctx: ContextId,
        snapshot: Arc<Vec<Project>>,
        root_generation: u64,
        context_generation: u64,
        fs_kind: FsKind,
        recorded_generation: u64,
    ) -> (r: bool)
        requires
            old(self).wf(),
        ensures
            final(self).wf(),
            r == (recorded_generation == old(self).inv_gen()),
            r ==> final(self).entries_map().dom() == old(self).entries_map().dom().insert(ctx@),
            r ==> final(self).entries_map()[ctx@].snapshot == projects_view(snapshot@),
            r ==> final(self).entries_map()[ctx@].root_generation == root_generation,
            r ==> final(self).entries_map()[ctx@].context_generation == context_generation,
            r ==> final(self).entries_map()[ctx@].fs_kind == fs_kind,
            r ==> forall|k: CtxV| k != ctx@ && #[trigger] old(self).entries_map().contains_key(k)
                ==> final(self).entries_map()[k] == old(self).entries_map()[k],
            !r ==> final(self).entries_map() == old(self).entries_map(),
            final(self).overlay_map() == old(self).overlay_map(),
            final(self).inv_gen() == old(self).inv_gen(),
            final(self).in_flight() == old(self).in_flight(),
    {
        let now = self.now_ms();
        self.try_insert_at(ctx, snapshot, root_generation, context_generation, fs_kind, recorded_generation, now)
    }

    /// Finishes a successful scan begun with [`Self::begin_scan`]: the
    /// in-flight count drops by one; if no invalidation happened since
    /// `recorded_generation`, the overlay hints of `ctx` are merged with the
    /// fresh snapshot (see [`overlay_keeps`]) and the snapshot is written,
    /// stamped `now_ms`, and true is returned; otherwise nothing else changes.
    pub fn finish_scan_with_insert_at(
        &mut self,
        ctx: ContextId,
        snapshot: Arc<Vec<Project>>,
        root_generation: u64,
        context_generation: u64,
        fs_kind: FsKind,
        recorded_generation: u64,
        now_ms: u64,
    ) -> (r: bool)
        requires
            old(self).wf(),
        ensures
            final(self).wf(),
            r == (recorded_generation == old(self).inv_gen()),
            final(self).in_flight() == (if old(self).in_flight() == 0 { 0 } else { (old(self).in_flight() - 1) as u32 }),
            r ==> final(self).entries_map() == old(self).entries_map().insert(
                ctx@,
                EntryView {
                    snapshot: projects_view(snapshot@),
                    root_generation,
                    context_generation,
                    inserted_at_ms: now_ms,
                    fs_kind,
                },
            ),
            r ==> final(self).overlay_map() == map_filter(
                old(self).overlay_map(),
                |k: OverlayKey, v: i64| overlay_keeps(ctx@, Some(projects_view(snapshot@)), k, v),
            ),
            !r ==> final(self).entries_map() == old(self).entries_map(),
            !r ==> final(self).overlay_map() == old(self).overlay_map(),
            final(self).inv_gen() == old(self).inv_gen(),
            final(self).hit_count() == old(self).hit_count(),
            final(self).lookup_count() == old(self).lookup_count(),
    {
        self.in_flight_scans = self.in_flight_scans.saturating_sub(1);
        if recorded_generation != self.invalidation_generation {
            return false;
        }
        let ghost mid = self.overlay_map();
        self.retain_overlay(&ctx, Some(&*snapshot));
        proof {
            assert(self.overlay_map() =~= map_filter(
                mid,
                |k: OverlayKey, v: i64| overlay_keeps(ctx@, Some(projects_view(snapshot@)), k, v),
            ));
        }
        self.insert_at(ctx, snapshot, root_generation, context_generation, fs_kind, now_ms);
        true
    }

    /// [`Self::finish_scan_with_insert_at`] stamped with the current clock
    /// reading (left unstated).
    pub fn finish_scan_with_insert(
        &mut self,
        ctx: ContextId,
        snapshot: Arc<Vec<Project>>,
        root_generation: u64,
        context_generation: u64,
        fs_kind: FsKind,
        recorded_generation: u64,
    ) -> (r: bool)
        requires
            old(self).wf(),
        ensures
            final(self).wf(),
            r == (recorded_generation == old(self).inv_gen()),
            final(self).in_flight() == (if old(self).in_flight() == 0 { 0 } else { (old(self).in_flight() - 1) as u32 }),
            r ==> final(self).entries_map().contains_key(ctx@),
            r ==> final(self).entries_map()[ctx@].snapshot == projects_view(snapshot@),
            r ==> final(self).entries_map()[ctx@].root_generation == root_generation,
            r ==> final(self).entries_map()[ctx@].context_generation == context_generation,
            r ==> final(self).entries_map()[ctx@].fs_kind == fs_kind,
            r ==> forall|k: CtxV| k != ctx@ ==> #[trigger] final(self).entries_map().contains_key(k)
                == old(self).entries_map().contains_key(k),
            r ==> forall|k: CtxV| k != ctx@ && #[trigger] old(self).entries_map().contains_key(k)
                ==> final(self).entries_map()[k] == old(self).entries_map()[k],
            r ==> final(self).overlay_map() == map_filter(
                old(self).overlay_map(),
                |k: OverlayKey, v: i64| overlay_keeps(ctx@, Some(projects_view(snapshot@)), k, v),
            ),
            !r ==> final(self).entries_map() == old(self).entries_map(),
            !r ==> final(self).overlay_map() == old(self).overlay_map(),
            final(self).inv_gen() == old(self).inv_gen(),
    {
        let now = self.now_ms();
        self.finish_scan_with_insert_at(ctx, snapshot, root_generation, context_generation, fs_kind, recorded_generation, now)
    }

    /// Raises the overlay hint of (`ctx`, `project_id`) to `mtime_ms` if it
    /// is absent or lower; a hint never moves backwards.
    pub fn advance_mtime(&mut self, ctx: &ContextId, project_id: &str, mtime_ms: i64)
        requires
            old(self).wf(),
        ensures
            final(self).wf(),
            final(self).overlay_map() == (if old(self).overlay_map().contains_key((ctx@, project_id@))
                && old(self).overlay_map()[(ctx@, project_id@)] >= mtime_ms {
                old(self).overlay_map()
            } else {
                old(self).overlay_map().insert((ctx@, project_id@), mtime_ms)
            }),
            final(self).entries_map() == old(self).entries_map(),
            final(self).inv_gen() == old(self).inv_gen(),
            final(self).in_flight() == old(self).in_flight(),
            final(self).hit_count() == old(self).hit_count(),
            final(self).lookup_count() == old(self).lookup_count(),
    {
        let ghost s = overlay_seq(self.mtime_overlay@);
        let ghost key = (ctx@, project_id@);
        let mut i: usize = 0;
        while i < self.mtime_overlay.len()
            invariant
                i <= self.mtime_overlay@.len(),
                s == overlay_seq(self.mtime_overlay@),
                forall|j: int| 0 <= j < i ==> #[trigger] s[j].0 != key,
                *self == *old(self),
                self.wf(),
                key == (ctx@, project_id@),
            decreases self.mtime_overlay@.len() - i,
        {
            assert(s[i as int].0 == (self.mtime_overlay@[i as int].ctx@, self.mtime_overlay@[i as int].project_id@));
            if self.mtime_overlay[i].ctx.same_as(ctx) && str_eq(self.mtime_overlay[i].project_id.as_str(), project_id) {
                proof {
                    lemma_to_map_index(s, i as int);
                }
                if self.mtime_overlay[i].mtime_ms < mtime_ms {
                    let slot = OverlaySlot {
                        ctx: ctx.duplicate(),
                        project_id: String::from_str(project_id),
                        mtime_ms,
                    };
                    self.mtime_overlay.set(i, slot);
                    proof {
                        assert(overlay_seq(self.mtime_overlay@) =~= s.update(i as int, (s[i as int].0, mtime_ms)));
                        lemma_to_map_update(s, i as int, mtime_ms);
                    }
                }
                return;
            }
            i = i + 1;
        }
        proof {
            if has_key(s, key) {
                let j = choose|j: int| 0 <= j < s.len() && #[trigger] s[j].0 == key;
            }
        }
        let slot = OverlaySlot { ctx: ctx.duplicate(), project_id: String::from_str(project_id), mtime_ms };
        self.mtime_overlay.push(slot);
        proof {
            assert(overlay_seq(self.mtime_overlay@) =~= s.push((key, mtime_ms)));
            lemma_to_map_push(s, key, mtime_ms);
        }
    }

    /// The overlay hint of (`ctx`, `project_id`), if any.
    pub fn lookup_mtime_overlay(&self, ctx: &ContextId, project_id: &str) -> (r: Option<i64>)
        requires
            self.wf(),
        ensures
            r == (if self.overlay_map().contains_key((ctx@, project_id@)) {
                Some(self.overlay_map()[(ctx@, project_id@)])
            } else {
                None
            }),
    {
        let ghost s = overlay_seq(self.mtime_overlay@);
        let ghost key = (ctx@, project_id@);
        let mut i: usize = 0;
        while i < self.mtime_overlay.len()
            invariant
                i <= self.mtime_overlay@.len(),
                s == overlay_seq(self.mtime_overlay@),
                forall|j: int| 0 <= j < i ==> #[trigger] s[j].0 != key,
                self.wf(),
                key == (ctx@, project_id@),
            decreases self.mtime_overlay@.len() - i,
        {
            assert(s[i as int].0 == (self.mtime_overlay@[i as int].ctx@, self.mtime_overlay@[i as int].project_id@));
            if self.mtime_overlay[i].ctx.same_as(ctx) && str_eq(self.mtime_overlay[i].project_id.as_str(), project_id) {
                proof {
                    lemma_to_map_index(s, i as int);
                }
                return Some(self.mtime_overlay[i].mtime_ms);
            }
            i = i + 1;
        }
        proof {
            if has_key(s, key) {
                let j = choose|j: int| 0 <= j < s.len() && #[trigger] s[j].0 == key;
            }
        }
        None
    }

    /// Whether a scan is in flight.
    pub fn has_in_flight_scan(&self) -> (r: bool)
        ensures
            r == (self.in_flight() > 0),
    {
        self.in_flight_scans > 0
    }

    /// Marks the start of a scan and returns the invalidation generation to
    /// hand back to [`Self::finish_scan_with_insert_at`].
    pub fn begin_scan(&mut self) -> (r: u64)
        requires
            old(self).wf(),
        ensures
            final(self).wf(),
            r == old(self).inv_gen(),
            final(self).in_flight() == (if old(self).in_flight() == u32::MAX { u32::MAX } else { (old(self).in_flight() + 1) as u32 }),
            final(self).entries_map() == old(self).entries_map(),
            final(self).overlay_map() == old(self).overlay_map(),
            final(self).inv_gen() == old(self).inv_gen(),
            final(self).hit_count() == old(self).hit_count(),
            final(self).lookup_count() == old(self).lookup_count(),
    {
        self.in_flight_scans = self.in_flight_scans.saturating_add(1);
        self.invalidation_generation
    }

    /// Marks a failed scan as finished; entries are left alone.
    pub fn abort_scan(&mut self)
        requires
            old(self).wf(),
        ensures
            final(self).wf(),
            final(self).in_flight() == (if old(self).in_flight() == 0 { 0 } else { (old(self).in_flight() - 1) as u32 }),
            final(self).entries_map() == old(self).entries_map(),
            final(self).overlay_map() == old(self).overlay_map(),
            final(self).inv_gen() == old(self).inv_gen(),
            final(self).hit_count() == old(self).hit_count(),
            final(self).lookup_count() == old(self).lookup_count(),
    {
        self.in_flight_scans = self.in_flight_scans.saturating_sub(1);
    }

    /// The current invalidation generation.
    pub fn invalidation_generation(&self) -> (r: u64)
        ensures
            r == self.inv_gen(),
    {
        self.invalidation_generation
    }

    /// Number of entries.
    pub fn len(&self) -> (r: usize)
        requires
            self.wf(),
        ensures
            self.entries_map().dom().finite(),
            r == self.entries_map().dom().len(),
    {
        proof {
            lemma_to_map_len(slots_seq(self.entries@));
        }
        self.entries.len()
    }

    /// Whether there are no entries.
    pub fn is_empty(&self) -> (r: bool)
        requires
            self.wf(),
        ensures
            r == (self.entries_map() == Map::<CtxV, EntryView>::empty()),
    {
        proof {
            lemma_to_map_len(slots_seq(self.entries@));
            if self.entries@.len() > 0 {
                lemma_to_map_index(slots_seq(self.entries@), 0);
                assert(!Map::<CtxV, EntryView>::empty().contains_key(slots_seq(self.entries@)[0].0));
            } else {
                lemma_to_map_empty(slots_seq(self.entries@));
            }
        }
        self.entries.len() == 0
    }

    /// Cumulative hits and lookups.
    pub fn stats(&self) -> (r: ProjectScanCacheStats)
        ensures
            r.hits == self.hit_count(),
            r.lookups == self.lookup_count(),
    {
        ProjectScanCacheStats { hits: self.hits, lookups: self.lookups }
    }
}


/// What a file event did to the cache: whether it cleared the local
/// entries, and whether the cache saw a session it did not know.
pub struct EnrichDecision {
    pub invalidated: bool,
    pub emit_session_list_changed_hint: bool,
}

/// The event names a session that the local entry does not list, while
/// the cache has a local entry or a scan in flight.
pub open spec fn is_unknown_session(
    entries: Map<CtxV, EntryView>,
    in_flight: u32,
    local: CtxV,
    e: FileChangeEventView,
) -> bool {
    &&& e.session_id.len() > 0
    &&& (entries.contains_key(local) || in_flight > 0)
    &&& !(entries.contains_key(local) && snapshot_has_session(entries[local].snapshot, e.project_id, e.session_id))
}

/// The event is structural: the project list changed, a file was deleted,
/// or a session unknown to the cache appeared.
pub open spec fn is_structural(entries: Map<CtxV, EntryView>, in_flight: u32, local: CtxV, e: FileChangeEventView) -> bool {
    e.project_list_changed || e.deleted || is_unknown_session(entries, in_flight, local, e)
}

/// Applies one local file event: a structural event clears the local
/// entries (see [`ProjectScanCache::invalidate_local`]); an ordinary append
/// to a known session leaves the cache as it was.
pub fn apply_file_event_to_project_scan_cache(
    cache: &mut ProjectScanCache,
    local_ctx: &ContextId,
    event: &FileChangeEvent,
) -> (r: EnrichDecision)
    requires
        old(cache).wf(),
    ensures
        final(cache).wf(),
        r.emit_session_list_changed_hint == is_unknown_session(old(cache).entries_map(), old(cache).in_flight(), local_ctx@, event@),
        r.invalidated == is_structural(old(cache).entries_map(), old(cache).in_flight(), local_ctx@, event@),
        r.invalidated ==> final(cache).entries_map() == map_filter(
            old(cache).entries_map(),
            |k: CtxV, e: EntryView| e.fs_kind != FsKind::Local,
        ),
        r.invalidated ==> final(cache).inv_gen() == bump(old(cache).inv_gen()),
        !r.invalidated ==> final(cache).entries_map() == old(cache).entries_map(),
        !r.invalidated ==> final(cache).inv_gen() == old(cache).inv_gen(),
        final(cache).overlay_map() == old(cache).overlay_map(),
        final(cache).in_flight() == old(cache).in_flight(),
        final(cache).hit_count() == old(cache).hit_count(),
        final(cache).lookup_count() == old(cache).lookup_count(),
{
    let track_unknown = cache.has_entry(local_ctx) || cache.has_in_flight_scan();
    let unknown_session = !event.session_id.as_str().is_empty() && track_unknown
        && !cache.contains_session_id(local_ctx, event.project_id.as_str(), event.session_id.as_str());
    let structural = event.project_list_changed || event.deleted || unknown_session;
    if structural {
        cache.invalidate_local();
    }
    EnrichDecision { invalidated: structural, emit_session_list_changed_hint: unknown_session }
}

/// Raises the overlay hint of the event's project in `ctx` to the event's
/// mtime; deletions, events without an mtime and events without a project
/// id change nothing.
pub fn apply_mtime_advance_to_project_scan_cache(cache: &mut ProjectScanCache, ctx: &ContextId, event: &FileChangeEvent)
    requires
        old(cache).wf(),
    ensures
        final(cache).wf(),
        final(cache).overlay_map() == (match event.mtime_ms {
            Some(m) if !event.deleted && event@.project_id.len() > 0 => {
                if old(cache).overlay_map().contains_key((ctx@, event@.project_id))
                    && old(cache).overlay_map()[(ctx@, event@.project_id)] >= m {
                    old(cache).overlay_map()
                } else {
                    old(cache).overlay_map().insert((ctx@, event@.project_id), m)
                }
            },
            _ => old(cache).overlay_map(),
        }),
        final(cache).entries_map() == old(cache).entries_map(),
        final(cache).inv_gen() == old(cache).inv_gen(),
        final(cache).in_flight() == old(cache).in_flight(),
        final(cache).hit_count() == old(cache).hit_count(),
        final(cache).lookup_count() == old(cache).lookup_count(),
{
    if event.deleted || event.project_id.as_str().is_empty() {
        return;
    }
    match event.mtime_ms {
        Some(m) => cache.advance_mtime(ctx, event.project_id.as_str(), m),
        None => {},
    }
}

/// A lagged watcher subscription may have missed structural events: the
/// local entries are cleared conservatively.
pub fn apply_lag_to_project_scan_cache(cache: &mut ProjectScanCache)
    requires
        old(cache).wf(),
    ensures
        final(cache).wf(),
        final(cache).entries_map() == map_filter(
            old(cache).entries_map(),
            |k: CtxV, e: EntryView| e.fs_kind != FsKind::Local,
        ),
        final(cache).inv_gen() == bump(old(cache).inv_gen()),
        final(cache).overlay_map() == old(cache).overlay_map(),
        final(cache).in_flight() == old(cache).in_flight(),
{
    cache.invalidate_local();
}

/// `most_recent_session`, with a missing value read as `i64::MIN`.
pub open spec fn mtime_or_min(p: ProjectView) -> i64 {
    match p.most_recent_session {
        Some(x) => x,
        None => i64::MIN,
    }
}

/// Some project of `snap` has an overlay hint in `ctx` newer than its
/// recorded mtime.
pub open spec fn overlay_is_newer(m: Map<OverlayKey, i64>, ctx: CtxV, snap: Seq<ProjectView>) -> bool {
    exists|i: int|
        0 <= i < snap.len() && m.contains_key((ctx, #[trigger] snap[i].id)) && m[(ctx, snap[i].id)]
            > mtime_or_min(snap[i])
}

/// A project with its hint merged in: the larger of its mtime and the hint.
pub open spec fn with_overlay(m: Map<OverlayKey, i64>, ctx: CtxV, p: ProjectView) -> ProjectView {
    if m.contains_key((ctx, p.id)) {
        ProjectView {
            most_recent_session: Some(
                if mtime_or_min(p) >= m[(ctx, p.id)] { mtime_or_min(p) } else { m[(ctx, p.id)] },
            ),
            ..p
        }
    } else {
        p
    }
}

/// What listings show for a snapshot: unchanged when no hint is newer than
/// its project's mtime, otherwise every project with its hint merged in.
pub open spec fn synthesized(m: Map<OverlayKey, i64>, ctx: CtxV, snap: Seq<ProjectView>) -> Seq<ProjectView> {
    if overlay_is_newer(m, ctx, snap) {
        snap.map_values(|p: ProjectView| with_overlay(m, ctx, p))
    } else {
        snap
    }
}

/// Merges the overlay hints of `ctx` into a snapshot for display. The
/// cache and the snapshot itself are not changed.
pub fn synthesize_projects_with_overlay(
    cache: &ProjectScanCache,
    ctx: &ContextId,
    snapshot: &Arc<Vec<Project>>,
) -> (r: Arc<Vec<Project>>)
    requires
        cache.wf(),
    ensures
        projects_view(r@) == synthesized(cache.overlay_map(), ctx@, projects_view(snapshot@)),
{
    let ghost m = cache.overlay_map();
    let ghost sv = projects_view(snapshot@);
    let snap: &Vec<Project> = &**snapshot;
    let mut needs = false;
    let mut i: usize = 0;
    while i < snap.len() && !needs
        invariant
            i <= snap@.len(),
            sv == projects_view(snap@),
            m == cache.overlay_map(),
            cache.wf(),
            needs ==> i < snap@.len() && m.contains_key((ctx@, sv[i as int].id)) && m[(ctx@, sv[i as int].id)] > mtime_or_min(sv[i as int]),
            !needs ==> forall|j: int| 0 <= j < i ==> !(m.contains_key((ctx@, #[trigger] sv[j].id)) && m[(ctx@, sv[j].id)] > mtime_or_min(sv[j])),
        decreases snap@.len() - i + (if needs { 0int } else { 1int }),
    {
        let h = cache.lookup_mtime_overlay(ctx, snap[i].id.as_str());
        let cur = match snap[i].most_recent_session {
            Some(x) => x,
            None => i64::MIN,
        };
        let newer = match h {
            Some(hint) => hint > cur,
            None => false,
        };
        if newer {
            needs = true;
        } else {
            i = i + 1;
        }
    }
    if !needs {
        proof {
            assert(!overlay_is_newer(m, ctx@, sv));
        }
        return snapshot.clone();
    }
    let mut out: Vec<Project> = Vec::new();
    let mut k: usize = 0;
    while k < snap.len()
        invariant
            k <= snap@.len(),
            sv == projects_view(snap@),
            m == cache.overlay_map(),
            cache.wf(),
            out@.len() == k,
            forall|j: int| 0 <= j < k ==> #[trigger] out@[j]@ == with_overlay(m, ctx@, sv[j]),
        decreases snap@.len() - k,
    {
        let mut p = snap[k].duplicate();
        match cache.lookup_mtime_overlay(ctx, snap[k].id.as_str()) {
            Some(hint) => {
                let cur = match p.most_recent_session {
                    Some(x) => x,
                    None => i64::MIN,
                };
                p.most_recent_session = Some(if cur >= hint { cur } else { hint });
            },
            None => {},
        }
        out.push(p);
        k = k + 1;
    }
    proof {
        assert(overlay_is_newer(m, ctx@, sv)) by {
            assert(m.contains_key((ctx@, sv[i as int].id)) && m[(ctx@, sv[i as int].id)] > mtime_or_min(sv[i as int]));
        }
        assert(projects_view(out@) =~= sv.map_values(|p: ProjectView| with_overlay(m, ctx@, p)));
    }
    Arc::new(out)
}

impl Default for ProjectScanCache {
    /// An empty cache (see [`ProjectScanCache::new`]).
    fn default() -> (r: Self)
        ensures
            r.wf(),
            r.entries_map() == Map::<CtxV, EntryView>::empty(),
            r.overlay_map() == Map::<OverlayKey, i64>::empty(),
            r.inv_gen() == 0,
            r.in_flight() == 0,
    {
        ProjectScanCache::new()
    }
}

} // verus!
