use cdt_api::context::{ContextId, FsKind};
use cdt_api::scan_registry::{ScanRegistry, ScanSelector};

fn local() -> ContextId {
    ContextId::local("/p".to_string())
}

fn remote(host: &str) -> ContextId {
    ContextId::ssh(host.to_string(), "/r".to_string())
}

#[test]
fn new_scan_displaces_the_old_one_of_its_key() {
    let mut r: ScanRegistry<&str> = ScanRegistry::new();
    assert_eq!(r.register("p|", local(), "a"), (0, None));
    assert_eq!(r.register("p|c1", local(), "b"), (1, None));
    assert_eq!(r.register("p|", local(), "c"), (2, Some("a")));
    assert_eq!(r.len(), 2);
    assert_eq!(r.generation_of("p|"), Some(2));
    assert_eq!(r.generation_of("p|c1"), Some(1));
    assert_eq!(r.generation_of("q|"), None);
    assert_eq!(r.next_generation(), 3);
}

#[test]
fn displaced_scan_does_not_remove_its_successor() {
    let mut r: ScanRegistry<u32> = ScanRegistry::new();
    let (g_old, _) = r.register("k", local(), 1);
    let (g_new, displaced) = r.register("k", local(), 2);
    assert_eq!(displaced, Some(1));
    assert!(!r.finish("k", g_old));
    assert_eq!(r.generation_of("k"), Some(g_new));
    assert!(r.finish("k", g_new));
    assert_eq!(r.generation_of("k"), None);
    assert!(!r.finish("k", g_new));
    assert!(!r.finish("missing", 0));
}

#[test]
fn abort_by_context_and_kind() {
    let mut r: ScanRegistry<u32> = ScanRegistry::new();
    r.register("a", local(), 1);
    r.register("b", remote("h1"), 2);
    r.register("c", remote("h2"), 3);
    r.register("d", remote("h1"), 4);
    let aborted = r.abort_matching(&ScanSelector::Context(remote("h1")));
    assert_eq!(aborted, vec![2, 4]);
    assert_eq!(r.len(), 2);
    assert_eq!(r.generation_of("b"), None);
    assert_eq!(r.generation_of("c"), Some(2));
    let ssh = r.abort_matching(&ScanSelector::Kind(FsKind::Ssh));
    assert_eq!(ssh, vec![3]);
    let none = r.abort_matching(&ScanSelector::Kind(FsKind::Ssh));
    assert!(none.is_empty());
    assert_eq!(r.abort_matching(&ScanSelector::Kind(FsKind::Local)), vec![1]);
    assert_eq!(r.len(), 0);
}
