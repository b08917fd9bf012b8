use cdt_api::error::{ApiError, ApiErrorCode};
use cdt_api::paths::{
    is_safe_path_component, metadata_scan_key, path_join, path_parent, reject_cmd_unsafe_path, session_jsonl_path,
    todos_dir_from_projects_dir, validate_project_base_dir,
};

#[test]
fn safe_path_components() {
    assert!(is_safe_path_component("abc-123"));
    assert!(!is_safe_path_component(""));
    assert!(!is_safe_path_component("."));
    assert!(!is_safe_path_component("a/b"));
    assert!(!is_safe_path_component("a\\b"));
    assert!(!is_safe_path_component("a..b"));
    assert!(!is_safe_path_component("a\0b"));
    assert!(is_safe_path_component(".hidden"));
}

#[test]
fn cmd_unsafe_paths_are_refused() {
    assert!(reject_cmd_unsafe_path("C:\\plain\\dir").is_ok());
    let err = reject_cmd_unsafe_path("C:\\a!b").unwrap_err();
    assert_eq!(err.code, ApiErrorCode::ValidationError);
    assert!(err.message.contains('!'));
}

#[test]
fn project_base_dir_must_be_one_normal_component() {
    assert!(validate_project_base_dir("-Users-foo-proj").is_ok());
    assert!(validate_project_base_dir("a/b").is_err());
    assert!(validate_project_base_dir(".").is_err());
    assert!(validate_project_base_dir("..").is_err());
    assert!(validate_project_base_dir("").is_err());
    assert!(validate_project_base_dir("/abs").is_err());
    let err = validate_project_base_dir("x/y").unwrap_err();
    assert_eq!(err.message, "project id must be an encoded project directory");
}

#[test]
fn scan_key_joins_project_and_cursor() {
    assert_eq!(metadata_scan_key("p", Some("c")), "p|c");
    assert_eq!(metadata_scan_key("p", None), "p|");
}

#[test]
fn todos_dir_sits_next_to_projects_dir() {
    assert_eq!(todos_dir_from_projects_dir("/home/u/.config/devtools/projects"), "/home/u/.config/devtools/todos");
    assert_eq!(todos_dir_from_projects_dir("projects"), "todos");
    assert_eq!(todos_dir_from_projects_dir("/"), "/..");
}

#[test]
fn path_helpers() {
    assert_eq!(path_join("/a", "b"), "/a/b");
    assert_eq!(path_join("/a/", "b"), "/a/b");
    assert_eq!(path_join("/a", "/b"), "/b");
    assert_eq!(path_parent("/a/b"), Some("/a".to_string()));
    assert_eq!(path_parent("/"), None);
    assert_eq!(session_jsonl_path("/p", "proj", "s"), "/p/proj/s.jsonl");
}

#[test]
fn error_constructors_set_code_and_message() {
    let e = ApiError::validation("bad".to_string());
    assert_eq!(e.code, ApiErrorCode::ValidationError);
    assert_eq!(e.message, "bad");
    assert_eq!(ApiError::not_found("x".to_string()).code, ApiErrorCode::NotFound);
    assert_eq!(ApiError::internal("x".to_string()).code, ApiErrorCode::Internal);
    assert_eq!(ApiError::ssh("x".to_string()).code, ApiErrorCode::SshError);
    assert_eq!(ApiError::external_app("x".to_string()).code, ApiErrorCode::ExternalApp);
}

#[test]
fn subagent_paths() {
    assert_eq!(cdt_api::paths::subagent_flat_path("/p/proj", "abc"), "/p/proj/agent-abc.jsonl");
    assert_eq!(cdt_api::paths::subagent_nested_path("/p/proj/root", "abc"), "/p/proj/root/subagents/agent-abc.jsonl");
    assert_eq!(cdt_api::paths::subagent_flat_path("/p/proj/", "x"), "/p/proj/agent-x.jsonl");
}

const PATH_SAMPLES: &[&str] = &[
    "", "/", "//", "/a", "//a", "a", "a/", "a//", "a/b", "a//b", "a/./b", "a/.", "a/./", "/.", "/./", ".", "./",
    "./a", "./a/", ".//a", "..", "../a", "a/..", "a/../b", ".a", ".a/b", "a/b/c/", "/a/b/./", "/usr/bin", "/usr/bin/",
    "/usr//bin", "/usr/./bin", "x/.y", "..a", ".../b",
];

#[test]
fn path_parent_matches_std() {
    for p in PATH_SAMPLES {
        let expected = std::path::Path::new(p).parent().map(|q| q.to_str().unwrap().to_string());
        assert_eq!(path_parent(p), expected, "parent of {p:?}");
    }
    assert_eq!(path_parent("a/./b"), Some("a".to_string()));
    assert_eq!(path_parent("/."), None);
}

#[test]
fn same_path_matches_std() {
    for a in PATH_SAMPLES {
        for b in PATH_SAMPLES {
            let expected = std::path::Path::new(a) == std::path::Path::new(b);
            assert_eq!(cdt_api::paths::same_path(a, b), expected, "{a:?} vs {b:?}");
        }
    }
}
