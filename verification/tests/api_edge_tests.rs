use cdt_api::context::{keep_new_connection, plan_ssh_connect, reattach_after_failed_connect, test_connection_context_id};
use cdt_api::error::{ApiError, ApiErrorCode};
use cdt_api::external_app::{canonical_path_outcome, canonicalize_error, PathErrorKind};
use cdt_api::scan_registry::may_publish_metadata;

#[test]
fn error_text_is_code_colon_message() {
    assert_eq!(ApiError::validation("bad".to_string()).to_string(), "ValidationError: bad");
    assert_eq!(ApiError::not_found("x".to_string()).to_string(), "NotFound: x");
    assert_eq!(ApiError::internal("boom".to_string()).to_string(), "Internal: boom");
    assert_eq!(ApiError::ssh("down".to_string()).to_string(), "SshError: down");
    assert_eq!(ApiError::external_app("no".to_string()).to_string(), "ExternalApp: no");
    let e = ApiError { code: ApiErrorCode::ConfigError, message: String::new() };
    assert_eq!(e.to_string(), "ConfigError: ");
    assert_eq!(ApiErrorCode::SshError.name(), "SshError");
}

#[test]
fn canonicalize_errors_by_kind() {
    let e = canonicalize_error(PathErrorKind::NotFound, "/nope", "No such file");
    assert_eq!(e.code, ApiErrorCode::NotFound);
    assert_eq!(e.message, "path does not exist: /nope (No such file)");
    let e = canonicalize_error(PathErrorKind::PermissionDenied, "/root/x", "denied");
    assert_eq!(e.code, ApiErrorCode::ExternalApp);
    assert_eq!(e.message, "permission denied accessing path: /root/x (denied)");
    let e = canonicalize_error(PathErrorKind::Other, "/a", "weird");
    assert_eq!(e.code, ApiErrorCode::ExternalApp);
    assert_eq!(e.message, "failed to resolve path: /a (weird)");
}

#[test]
fn canonical_path_outcome_cases() {
    let e = canonical_path_outcome("rel/path", Ok("/x".to_string())).unwrap_err();
    assert_eq!(e.code, ApiErrorCode::ValidationError);
    assert_eq!(e.message, "path must be absolute");
    assert_eq!(canonical_path_outcome("/a/../b", Ok("/b".to_string())).unwrap(), "/b");
    let e = canonical_path_outcome(
        "/nonexistent/foo/bar/baz/zzz",
        Err((PathErrorKind::NotFound, "gone".to_string())),
    )
    .unwrap_err();
    assert_eq!(e.code, ApiErrorCode::NotFound);
}

#[test]
fn ssh_connect_plans() {
    let p = plan_ssh_connect(None, None, "host.example");
    assert_eq!(p.target, "host.example");
    assert!(p.bump_generation);
    assert_eq!(p.cancel_watcher_of, None);
    assert!(p.abort_local_scans);
    assert!(!p.keep_baseline);
    let same = plan_ssh_connect(Some("ctx-a"), Some("ctx-a"), "h");
    assert_eq!(same.target, "ctx-a");
    assert!(same.bump_generation, "a reconnect of the active context bumps too");
    assert_eq!(same.cancel_watcher_of.as_deref(), Some("ctx-a"));
    assert_eq!(same.abort_scans_of.as_deref(), Some("ctx-a"));
    assert!(!same.abort_local_scans);
    assert!(same.keep_baseline);
    let other = plan_ssh_connect(Some("ctx-a"), None, "ctx-b");
    assert_eq!(other.target, "ctx-b");
    assert_eq!(other.cancel_watcher_of.as_deref(), Some("ctx-a"));
    assert!(!other.keep_baseline);
}

#[test]
fn reattach_and_shutdown_decisions() {
    assert!(reattach_after_failed_connect(Some("a"), "a", true));
    assert!(!reattach_after_failed_connect(Some("a"), "a", false));
    assert!(!reattach_after_failed_connect(Some("a"), "b", true));
    assert!(!reattach_after_failed_connect(None, "a", true));
    assert!(keep_new_connection(3, 3).is_ok());
    let e = keep_new_connection(3, 4).unwrap_err();
    assert_eq!(e.code, ApiErrorCode::SshError);
    assert_eq!(e.message, "SSH shutdown in progress");
    assert_eq!(test_connection_context_id(Some("id"), "h"), "id");
    assert_eq!(test_connection_context_id(None, "h"), "h-test");
}

#[test]
fn metadata_publish_needs_unchanged_generations() {
    assert!(may_publish_metadata(1, 1, 2, 2));
    assert!(!may_publish_metadata(1, 2, 2, 2));
    assert!(!may_publish_metadata(1, 1, 2, 3));
}
