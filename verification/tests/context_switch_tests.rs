use cdt_api::context::{
    active_context_info, list_contexts, plan_context_switch, self_heal_allowed, FsKind, RemoteContextState,
};
use cdt_api::error::ApiErrorCode;

#[test]
fn switching_to_the_active_context_does_nothing() {
    let p = plan_context_switch(None, "local");
    assert_eq!(p.target, None);
    assert!(!p.bump_generation);
    assert_eq!(p.cancel_watcher_of, None);
    assert_eq!(p.abort_scans_of, None);
    assert!(!p.abort_local_scans);
    assert_eq!(p.attach_watcher_to, None);
    let q = plan_context_switch(Some("host-a"), "host-a");
    assert_eq!(q.target.as_deref(), Some("host-a"));
    assert!(!q.bump_generation);
    assert_eq!(q.attach_watcher_to, None);
}

#[test]
fn local_to_remote_aborts_local_scans_and_attaches() {
    let p = plan_context_switch(None, "host-a");
    assert_eq!(p.target.as_deref(), Some("host-a"));
    assert!(p.bump_generation);
    assert_eq!(p.cancel_watcher_of, None);
    assert!(p.abort_local_scans);
    assert_eq!(p.attach_watcher_to.as_deref(), Some("host-a"));
}

#[test]
fn remote_to_local_cancels_previous() {
    let p = plan_context_switch(Some("host-a"), "local");
    assert_eq!(p.target, None);
    assert!(p.bump_generation);
    assert_eq!(p.cancel_watcher_of.as_deref(), Some("host-a"));
    assert_eq!(p.abort_scans_of.as_deref(), Some("host-a"));
    assert!(!p.abort_local_scans);
    assert_eq!(p.attach_watcher_to, None);
}

#[test]
fn remote_to_other_remote() {
    let p = plan_context_switch(Some("host-a"), "host-b");
    assert_eq!(p.target.as_deref(), Some("host-b"));
    assert!(p.bump_generation);
    assert_eq!(p.cancel_watcher_of.as_deref(), Some("host-a"));
    assert_eq!(p.abort_scans_of.as_deref(), Some("host-a"));
    assert!(!p.abort_local_scans);
    assert_eq!(p.attach_watcher_to.as_deref(), Some("host-b"));
}

fn state(id: &str, host: &str) -> RemoteContextState {
    RemoteContextState { context_id: id.to_string(), host: host.to_string() }
}

#[test]
fn list_contexts_marks_the_active_one() {
    let states = vec![state("ssh-a", "a.example"), state("ssh-b", "b.example")];
    let local_active = list_contexts(None, &states);
    assert_eq!(local_active.len(), 3);
    assert_eq!(local_active[0].id, "local");
    assert_eq!(local_active[0].kind, FsKind::Local);
    assert!(local_active[0].is_active);
    assert_eq!(local_active[0].host, None);
    assert!(!local_active[1].is_active && !local_active[2].is_active);
    let remote_active = list_contexts(Some("ssh-b"), &states);
    assert!(!remote_active[0].is_active);
    assert!(!remote_active[1].is_active);
    assert!(remote_active[2].is_active);
    assert_eq!(remote_active[2].kind, FsKind::Ssh);
    assert_eq!(remote_active[2].host.as_deref(), Some("b.example"));
}

#[test]
fn active_context_info_cases() {
    let local = active_context_info(None, None).unwrap();
    assert_eq!(local.id, "local");
    assert!(local.is_active);
    let st = state("ssh-a", "a.example");
    let remote = active_context_info(Some("ssh-a"), Some(&st)).unwrap();
    assert_eq!(remote.id, "ssh-a");
    assert_eq!(remote.kind, FsKind::Ssh);
    assert_eq!(remote.host.as_deref(), Some("a.example"));
    let e = active_context_info(Some("gone"), None).unwrap_err();
    assert_eq!(e.code, ApiErrorCode::NotFound);
    assert_eq!(e.message, "SSH context: gone");
}

#[test]
fn self_heal_only_when_nothing_changed() {
    assert!(self_heal_allowed(4, 4, "ssh-a", Some("ssh-a")));
    assert!(!self_heal_allowed(4, 5, "ssh-a", Some("ssh-a")));
    assert!(!self_heal_allowed(4, 4, "ssh-a", Some("ssh-b")));
    assert!(!self_heal_allowed(4, 4, "ssh-a", None));
    assert!(!self_heal_allowed(u64::MAX, 0, "ssh-a", Some("ssh-a")));
}
