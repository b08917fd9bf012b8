//! Backend context identity: which file system a cache entry belongs to.

use vstd::prelude::*;

use crate::error::{ApiError, ApiErrorCode};
use crate::text::{opt_view, str_eq};

verus! {

/// Kind of file-system backend a context reads from.
#[derive(Debug, Clone, Copy, PartialEq, Eq, Structural)]
pub enum FsKind {
    Local,
    Ssh,
}

/// Identity of a data source: backend kind, host signature (empty for the
/// local machine) and the projects root. Two contexts are the same source
/// exactly when all three parts agree, so caches keyed by it never mix
/// entries of different hosts.
#[derive(Debug, Clone)]
pub struct ContextId {
    pub kind: FsKind,
    pub host: String,
    pub root: String,
}

impl View for ContextId {
    type V = (FsKind, Seq<char>, Seq<char>);

    open spec fn view(&self) -> (FsKind, Seq<char>, Seq<char>) {
        (self.kind, self.host@, self.root@)
    }
}

impl ContextId {
    /// The local machine's context rooted at `root`.
    pub fn local(root: String) -> (r: ContextId)
        ensures
            r@ == (FsKind::Local, Seq::<char>::empty(), root@),
    {
        ContextId { kind: FsKind::Local, host: String::new(), root }
    }

    /// A remote context on the host identified by `host_signature`.
    pub fn ssh(host_signature: String, root: String) -> (r: ContextId)
        ensures
            r@ == (FsKind::Ssh, host_signature@, root@),
    {
        ContextId { kind: FsKind::Ssh, host: host_signature, root }
    }

    /// Whether both identify the same source.
    pub fn same_as(&self, other: &ContextId) -> (r: bool)
        ensures
            r == (self@ == other@),
    {
        self.kind == other.kind && self.host == other.host && self.root == other.root
    }

    /// A copy with the same identity.
    pub fn duplicate(&self) -> (r: ContextId)
        ensures
            r@ == self@,
    {
        ContextId { kind: self.kind, host: self.host.clone(), root: self.root.clone() }
    }
}

/// Id by which a client names the local machine's context.
pub open spec fn local_context_name() -> Seq<char> {
    "local"@
}

/// What switching the active context to a requested id involves, in
/// order: bumping the context generation (so scans in flight stop
/// publishing), cancelling the previous remote context's watcher and
/// aborting its scans, or aborting the local scans when leaving the local
/// machine; then, after the switch, attaching a watcher to the new remote
/// context. `target` is the new active remote context (`None`: local).
#[derive(Debug)]
pub struct ContextSwitchPlan {
    pub target: Option<String>,
    pub bump_generation: bool,
    pub cancel_watcher_of: Option<String>,
    pub abort_scans_of: Option<String>,
    pub abort_local_scans: bool,
    pub attach_watcher_to: Option<String>,
}

/// The remote context a request names (`None` for the local machine).
pub open spec fn requested_target(requested: Seq<char>) -> Option<Seq<char>> {
    if requested == local_context_name() {
        None
    } else {
        Some(requested)
    }
}

/// Plans a switch from the active remote context `previous` (`None`:
/// local) to the context named `requested`: nothing happens when it is
/// already active.
pub fn plan_context_switch(previous: Option<&str>, requested: &str) -> (r: ContextSwitchPlan)
    ensures
        ({
            let prev = match previous {
                Some(p) => Some(p@),
                None => None,
            };
            let target = requested_target(requested@);
            let changed = prev != target;
            &&& opt_view(r.target) == target
            &&& r.bump_generation == changed
            &&& opt_view(r.cancel_watcher_of) == (if changed {
                prev
            } else {
                None
            })
            &&& opt_view(r.abort_scans_of) == opt_view(r.cancel_watcher_of)
            &&& r.abort_local_scans == (changed && prev is None && target is Some)
            &&& opt_view(r.attach_watcher_to) == (if changed {
                target
            } else {
                None
            })
        }),
{
    proof {
        reveal_strlit("local");
    }
    let is_local = str_eq(requested, "local");
    let changed = match previous {
        None => !is_local,
        Some(p) => is_local || !str_eq(p, requested),
    };
    let target = if is_local {
        None
    } else {
        Some(String::from_str(requested))
    };
    let (cancel, abort_of, abort_local) = if changed {
        match previous {
            Some(p) => (Some(String::from_str(p)), Some(String::from_str(p)), false),
            None => (None, None, !is_local),
        }
    } else {
        (None, None, false)
    };
    let attach = if changed && !is_local {
        Some(String::from_str(requested))
    } else {
        None
    };
    ContextSwitchPlan {
        target,
        bump_generation: changed,
        cancel_watcher_of: cancel,
        abort_scans_of: abort_of,
        abort_local_scans: abort_local,
        attach_watcher_to: attach,
    }
}

/// A remote context as the connection manager reports it: its id and host.
#[derive(Debug)]
pub struct RemoteContextState {
    pub context_id: String,
    pub host: String,
}

/// A context as listed for a client.
#[derive(Debug)]
pub struct ContextInfo {
    pub id: String,
    pub kind: FsKind,
    pub is_active: bool,
    pub host: Option<String>,
}

/// The listed form of the local machine's context.
pub open spec fn local_info_ok(i: ContextInfo, active: bool) -> bool {
    i.id@ == local_context_name() && i.kind == FsKind::Local && i.is_active == active && i.host is None
}

/// The listed form of remote context `st` given the active remote context.
pub open spec fn remote_info_ok(i: ContextInfo, st: RemoteContextState, active: Option<Seq<char>>) -> bool {
    &&& i.id@ == st.context_id@
    &&& i.kind == FsKind::Ssh
    &&& i.is_active == (active == Some(st.context_id@))
    &&& i.host matches Some(h) && h@ == st.host@
}

/// The contexts a client can switch to: the local machine first, then each
/// remote context in the manager's order, with the active one marked
/// (`active` is the active remote context, `None` for the local machine).
pub fn list_contexts(active: Option<&str>, states: &[RemoteContextState]) -> (r: Vec<ContextInfo>)
    ensures
        r@.len() == states@.len() + 1,
        local_info_ok(r@[0], active is None),
        forall|i: int|
            0 <= i < states@.len() ==> remote_info_ok(
                #[trigger] r@[i + 1],
                states@[i],
                match active {
                    Some(a) => Some(a@),
                    None => None,
                },
            ),
{
    proof {
        reveal_strlit("local");
    }
    let mut out: Vec<ContextInfo> = Vec::new();
    out.push(ContextInfo { id: String::from_str("local"), kind: FsKind::Local, is_active: active.is_none(), host: None });
    let mut i: usize = 0;
    while i < states.len()
        invariant
            i <= states@.len(),
            out@.len() == i + 1,
            local_info_ok(out@[0], active is None),
            forall|j: int|
                0 <= j < i ==> remote_info_ok(
                    #[trigger] out@[j + 1],
                    states@[j],
                    match active {
                        Some(a) => Some(a@),
                        None => None,
                    },
                ),
        decreases states@.len() - i,
    {
        let st = &states[i];
        let is_active = match active {
            Some(a) => str_eq(a, st.context_id.as_str()),
            None => false,
        };
        out.push(
            ContextInfo {
                id: String::from_str(st.context_id.as_str()),
                kind: FsKind::Ssh,
                is_active,
                host: Some(String::from_str(st.host.as_str())),
            },
        );
        i = i + 1;
    }
    out
}

/// Message of the error for an active remote context the manager no
/// longer knows.
pub open spec fn unknown_remote_text(id: Seq<char>) -> Seq<char> {
    "SSH context: "@ + id
}

/// The active context for a client: the local machine when no remote
/// context is active; else the active remote context as the manager
/// reports it (`state`), or not-found when the manager has none.
pub fn active_context_info(active: Option<&str>, state: Option<&RemoteContextState>) -> (r: Result<
    ContextInfo,
    crate::error::ApiError,
>)
    ensures
        match active {
            None => (r matches Ok(i) && local_info_ok(i, true)),
            Some(a) => match state {
                Some(st) => (r matches Ok(i) && i.id@ == st.context_id@ && i.kind == FsKind::Ssh && i.is_active
                    && opt_view(i.host) == Some(st.host@)),
                None => (r matches Err(e) && e.code == crate::error::ApiErrorCode::NotFound && e.message@
                    == unknown_remote_text(a@)),
            },
        },
{
    proof {
        reveal_strlit("local");
    }
    match active {
        None => Ok(ContextInfo { id: String::from_str("local"), kind: FsKind::Local, is_active: true, host: None }),
        Some(a) => match state {
            Some(st) => Ok(
                ContextInfo {
                    id: String::from_str(st.context_id.as_str()),
                    kind: FsKind::Ssh,
                    is_active: true,
                    host: Some(String::from_str(st.host.as_str())),
                },
            ),
            None => {
                let mut msg = String::from_str("SSH context: ");
                msg.append(a);
                Err(crate::error::ApiError::not_found(msg))
            },
        },
    }
}

/// A watcher of remote context `watched` that saw its connection die may
/// disconnect it only while nothing changed since the watcher was
/// attached: the context generation is the one it captured, and `watched`
/// is still the active context.
pub open spec fn self_heal_ok(captured: u64, current: u64, watched: Seq<char>, active: Option<Seq<char>>) -> bool {
    captured == current && active == Some(watched)
}

/// Whether a dead-connection disconnect of `watched` may go ahead (see
/// [`self_heal_ok`]).
pub fn self_heal_allowed(captured_generation: u64, current_generation: u64, watched: &str, active: Option<&str>) -> (r:
    bool)
    ensures
        r == self_heal_ok(
            captured_generation,
            current_generation,
            watched@,
            match active {
                Some(a) => Some(a@),
                None => None,
            },
        ),
{
    if captured_generation != current_generation {
        return false;
    }
    match active {
        Some(a) => str_eq(a, watched),
        None => false,
    }
}

/// The remote context a connection request opens: the id it names, else
/// its host.
pub open spec fn connect_target(requested: Option<Seq<char>>, host: Seq<char>) -> Seq<char> {
    match requested {
        Some(r) => r,
        None => host,
    }
}

/// What opening a remote connection involves, before the connection is
/// made: the target context; bumping the context generation (always, even
/// on a reconnect of the active context, so that a watcher of the old
/// connection can no longer act); cancelling the previous remote context's
/// watcher and aborting its scans, or aborting the local scans when the
/// local machine was active; and whether the old watcher's baseline is
/// handed to the new watcher (only on a reconnect of the same context).
#[derive(Debug)]
pub struct SshConnectPlan {
    pub target: String,
    pub bump_generation: bool,
    pub cancel_watcher_of: Option<String>,
    pub abort_scans_of: Option<String>,
    pub abort_local_scans: bool,
    pub keep_baseline: bool,
}

/// Plans a connection to the context a request names (`requested`, else
/// `host`) while `previous` is the active remote context (`None`: local).
pub fn plan_ssh_connect(previous: Option<&str>, requested: Option<&str>, host: &str) -> (r: SshConnectPlan)
    ensures
        ({
            let prev = match previous {
                Some(p) => Some(p@),
                None => None,
            };
            let target = connect_target(
                match requested {
                    Some(q) => Some(q@),
                    None => None,
                },
                host@,
            );
            &&& r.target@ == target
            &&& r.bump_generation
            &&& opt_view(r.cancel_watcher_of) == prev
            &&& opt_view(r.abort_scans_of) == prev
            &&& r.abort_local_scans == (prev is None)
            &&& r.keep_baseline == (prev == Some(target))
        }),
{
    let target = match requested {
        Some(q) => String::from_str(q),
        None => String::from_str(host),
    };
    let (cancel, abort_of, abort_local, keep) = match previous {
        Some(p) => (Some(String::from_str(p)), Some(String::from_str(p)), false, str_eq(p, target.as_str())),
        None => (None, None, true, false),
    };
    SshConnectPlan {
        target,
        bump_generation: true,
        cancel_watcher_of: cancel,
        abort_scans_of: abort_of,
        abort_local_scans: abort_local,
        keep_baseline: keep,
    }
}

/// After a failed connection, the old watcher is attached again only when
/// the request reconnected the active context and the old connection is
/// still alive (otherwise that connection would go unwatched).
pub fn reattach_after_failed_connect(previous: Option<&str>, target: &str, old_alive: bool) -> (r: bool)
    ensures
        r == (match previous {
            Some(p) => Some(p@),
            None => None,
        } == Some(target@) && old_alive),
{
    match previous {
        Some(p) => str_eq(p, target) && old_alive,
        None => false,
    }
}

/// Message of the error for a connection that completed during shutdown.
pub open spec fn shutdown_in_progress_text() -> Seq<char> {
    "SSH shutdown in progress"@
}

/// A connection that completed is kept (and its watcher attached) only if
/// no shutdown began meanwhile: the shutdown generation read before
/// connecting (`captured`) must still be current; otherwise the connection
/// is closed again and the request fails.
pub fn keep_new_connection(captured: u64, current: u64) -> (r: Result<(), ApiError>)
    ensures
        r is Ok <==> captured == current,
        r matches Err(e) ==> e.code == ApiErrorCode::SshError && e.message@ == shutdown_in_progress_text(),
{
    if captured == current {
        Ok(())
    } else {
        Err(ApiError::ssh(String::from_str("SSH shutdown in progress")))
    }
}

/// The context id reported for a connection test: the id the request
/// names, else its host followed by `-test`.
pub fn test_connection_context_id(requested: Option<&str>, host: &str) -> (r: String)
    ensures
        r@ == match requested {
            Some(q) => q@,
            None => host@ + "-test"@,
        },
{
    match requested {
        Some(q) => String::from_str(q),
        None => {
            let mut s = String::from_str(host);
            s.append("-test");
            s
        },
    }
}

} // verus!
