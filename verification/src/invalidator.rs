//! One step of the cache invalidator: what a watcher event, or a lagged
//! subscription, does to the project-scan and parsed-message caches and
//! which event is passed on to subscribers.

use vstd::prelude::*;

use crate::assoc::{has_key, key_index, map_filter};
use crate::context::{ContextId, FsKind};
use crate::file_event::{FileChangeEvent, FileChangeEventView};
use crate::parsed_cache::{FileSignature, ParsedMessageCache};
use crate::paths::{join_path, path_comps, session_jsonl_path};
use crate::scan_cache::{
    apply_file_event_to_project_scan_cache, apply_lag_to_project_scan_cache,
    apply_mtime_advance_to_project_scan_cache, bump, is_structural, is_unknown_session, CtxV, EntryView,
    ProjectScanCache,
};

verus! {

/// The event passed on: the watcher's own `session_list_changed`, raised
/// when the cache saw an unknown session.
pub open spec fn enriched_view(e: FileChangeEventView, hint: bool) -> FileChangeEventView {
    FileChangeEventView { session_list_changed: e.session_list_changed || hint, ..e }
}

/// The event passed on for a watcher event and the cache's hint.
pub fn enrich_event(event: &FileChangeEvent, hint: bool) -> (r: FileChangeEvent)
    ensures
        r@ == enriched_view(event@, hint),
{
    let mut r = event.duplicate();
    r.session_list_changed = event.session_list_changed || hint;
    r
}

/// Event passed on after missed notifications: every list may have
/// changed, and no project or session is named.
pub open spec fn lag_event_view() -> FileChangeEventView {
    FileChangeEventView {
        project_id: Seq::empty(),
        session_id: Seq::empty(),
        deleted: false,
        project_list_changed: true,
        session_list_changed: true,
        mtime_ms: None,
    }
}

/// The structural event emitted when notifications were missed.
pub fn lag_synthetic_event() -> (r: FileChangeEvent)
    ensures
        r@ == lag_event_view(),
{
    let r = FileChangeEvent {
        project_id: String::new(),
        session_id: String::new(),
        deleted: false,
        project_list_changed: true,
        session_list_changed: true,
        mtime_ms: None,
    };
    assert(r@.project_id =~= Seq::<char>::empty());
    r
}

/// The overlay after an event's mtime is applied in `ctx` (see
/// [`apply_mtime_advance_to_project_scan_cache`]).
pub open spec fn advanced_overlay(
    m: Map<(CtxV, Seq<char>), i64>,
    ctx: CtxV,
    e: FileChangeEventView,
) -> Map<(CtxV, Seq<char>), i64> {
    match e.mtime_ms {
        Some(t) if !e.deleted && e.project_id.len() > 0 => {
            if m.contains_key((ctx, e.project_id)) && m[(ctx, e.project_id)] >= t {
                m
            } else {
                m.insert((ctx, e.project_id), t)
            }
        },
        _ => m,
    }
}

/// Handles one event of a local project: the scan cache is invalidated
/// for structural events, the project's mtime hint advanced, and the
/// event passed on with the cache's unknown-session hint folded in.
pub fn process_local_file_event(cache: &mut ProjectScanCache, local_ctx: &ContextId, event: &FileChangeEvent) -> (r:
    FileChangeEvent)
    requires
        old(cache).wf(),
    ensures
        final(cache).wf(),
        r@ == enriched_view(
            event@,
            is_unknown_session(old(cache).entries_map(), old(cache).in_flight(), local_ctx@, event@),
        ),
        is_structural(old(cache).entries_map(), old(cache).in_flight(), local_ctx@, event@) ==> final(cache).entries_map()
            == map_filter(old(cache).entries_map(), |k: CtxV, e: EntryView| e.fs_kind != FsKind::Local)
            && final(cache).inv_gen() == bump(old(cache).inv_gen()),
        !is_structural(old(cache).entries_map(), old(cache).in_flight(), local_ctx@, event@) ==> final(cache).entries_map()
            == old(cache).entries_map() && final(cache).inv_gen() == old(cache).inv_gen(),
        final(cache).overlay_map() == advanced_overlay(old(cache).overlay_map(), local_ctx@, event@),
        final(cache).in_flight() == old(cache).in_flight(),
{
    let decision = apply_file_event_to_project_scan_cache(cache, local_ctx, event);
    apply_mtime_advance_to_project_scan_cache(cache, local_ctx, event);
    enrich_event(event, decision.emit_session_list_changed_hint)
}

/// Handles one event of a remote project: the local entries are left
/// alone, the mtime hint advances in the active remote context when one is
/// known, and the event is passed on as the watcher reported it.
pub fn process_remote_file_event(cache: &mut ProjectScanCache, remote_ctx: Option<&ContextId>, event: &FileChangeEvent)
    -> (r: FileChangeEvent)
    requires
        old(cache).wf(),
    ensures
        final(cache).wf(),
        r@ == event@,
        final(cache).entries_map() == old(cache).entries_map(),
        final(cache).inv_gen() == old(cache).inv_gen(),
        final(cache).overlay_map() == (match remote_ctx {
            Some(c) => advanced_overlay(old(cache).overlay_map(), c@, event@),
            None => old(cache).overlay_map(),
        }),
        final(cache).in_flight() == old(cache).in_flight(),
{
    match remote_ctx {
        Some(c) => apply_mtime_advance_to_project_scan_cache(cache, c, event),
        None => {},
    }
    event.duplicate()
}

/// Handles a lagged subscription: the local scan entries are cleared and
/// the synthetic structural event is passed on.
pub fn process_lag(cache: &mut ProjectScanCache) -> (r: FileChangeEvent)
    requires
        old(cache).wf(),
    ensures
        final(cache).wf(),
        r@ == lag_event_view(),
        final(cache).entries_map() == map_filter(
            old(cache).entries_map(),
            |k: CtxV, e: EntryView| e.fs_kind != FsKind::Local,
        ),
        final(cache).inv_gen() == bump(old(cache).inv_gen()),
        final(cache).overlay_map() == old(cache).overlay_map(),
{
    apply_lag_to_project_scan_cache(cache);
    lag_synthetic_event()
}

/// The session file whose parsed messages an event may have made stale;
/// `None` for events that name no session.
pub fn parsed_cache_target(projects_dir: &str, event: &FileChangeEvent) -> (r: Option<String>)
    ensures
        event@.session_id.len() == 0 ==> r is None,
        event@.session_id.len() > 0 ==> (r matches Some(p) && p@ == join_path(
            join_path(projects_dir@, event@.project_id),
            event@.session_id + ".jsonl"@,
        )),
{
    if event.session_id.as_str().is_empty() {
        None
    } else {
        Some(session_jsonl_path(projects_dir, event.project_id.as_str(), event.session_id.as_str()))
    }
}

/// Applies the result of reading a file's signature to the parsed cache:
/// the entry goes when the signature differs, or when the file could not
/// be read at all.
pub fn apply_stat_to_parsed_cache<M>(
    cache: &mut ParsedMessageCache<M>,
    ctx: &ContextId,
    path: &str,
    stat: Option<FileSignature>,
)
    requires
        old(cache).wf(),
    ensures
        final(cache).wf(),
        final(cache).cap() == old(cache).cap(),
        final(cache).order() == (if has_key(old(cache).order(), (ctx@, path_comps(path@))) && (match stat {
            Some(sig) => old(cache).order()[key_index(old(cache).order(), (ctx@, path_comps(path@)))].1.0 != sig,
            None => true,
        }) {
            old(cache).order().remove(key_index(old(cache).order(), (ctx@, path_comps(path@))))
        } else {
            old(cache).order()
        }),
{
    match stat {
        Some(sig) => {
            let _removed = cache.remove_if_signature_mismatch(ctx, path, &sig);
        },
        None => cache.remove(ctx, path),
    }
}

} // verus!
