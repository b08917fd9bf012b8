use cdt_api::external_app::TargetOs;
use cdt_api::jobs::{
    effective_job_state, group_order, is_completed_job, job_command_args, job_display_name, job_list_order, JobAction,
    JobGroup, JobState,
};
use cdt_api::search_path::{extract_login_shell_path, merge_paths, well_known_dirs};
use cdt_api::session_filter::{limit_reached, passes_metadata, passes_until, SessionListFilter};

fn strs(v: &[&str]) -> Vec<String> {
    v.iter().map(|s| s.to_string()).collect()
}

#[test]
fn merge_paths_deduplicates_preserving_insertion_order() {
    let entries = strs(&["/usr/bin", "/usr/local/bin", "/usr/bin", "/opt/homebrew/bin", "/usr/local/bin"]);
    assert_eq!(merge_paths(&entries), strs(&["/usr/bin", "/usr/local/bin", "/opt/homebrew/bin"]));
}

#[test]
fn merge_paths_empty_input_returns_empty() {
    let result = merge_paths(&[]);
    assert!(result.is_empty());
}

#[test]
fn login_shell_output_between_markers() {
    let out = b"noise\n__CDT_PATH_START__/usr/bin:/opt/bin__CDT_PATH_END__trailing";
    assert_eq!(extract_login_shell_path(out), Some(b"/usr/bin:/opt/bin".to_vec()));
    assert_eq!(extract_login_shell_path(b"__CDT_PATH_START__no end"), None);
    assert_eq!(extract_login_shell_path(b"nothing here"), None);
    assert_eq!(extract_login_shell_path(b"__CDT_PATH_START____CDT_PATH_END__"), Some(Vec::new()));
}

#[test]
fn well_known_dirs_per_platform() {
    assert_eq!(
        well_known_dirs(TargetOs::MacOs, Some("/Users/me")),
        strs(&[
            "/usr/local/bin",
            "/opt/homebrew/bin",
            "/opt/local/bin",
            "/Users/me/.local/bin",
            "/Users/me/.cargo/bin",
            "/Users/me/bin"
        ])
    );
    assert_eq!(
        well_known_dirs(TargetOs::Linux, None),
        strs(&["/usr/local/bin", "/snap/bin", "/var/lib/flatpak/exports/bin"])
    );
    assert!(well_known_dirs(TargetOs::Windows, Some("C:\\Users\\me")).is_empty());
}

#[test]
fn list_jobs_terminal_state_not_overridden_by_active_tempo() {
    assert_eq!(effective_job_state(JobState::Failed, "active"), JobState::Failed);
    assert_eq!(job_display_name("", "run tests"), "run tests");
}

#[test]
fn list_jobs_non_terminal_overridden_by_active_tempo() {
    assert_eq!(effective_job_state(JobState::Idle, "active"), JobState::Working);
    assert_eq!(effective_job_state(JobState::Working, "blocked"), JobState::Blocked);
    assert_eq!(effective_job_state(JobState::Blocked, "idle"), JobState::Blocked);
    assert_eq!(effective_job_state(JobState::Done, "blocked"), JobState::Done);
    assert_eq!(effective_job_state(JobState::Stopped, "active"), JobState::Stopped);
}

#[test]
fn list_jobs_empty_name_falls_back_to_intent() {
    assert_eq!(job_display_name("", "intent text"), "intent text");
    assert_eq!(job_display_name("named", "intent text"), "named");
}

#[test]
fn job_list_is_ordered_by_group_and_stable() {
    assert_eq!(group_order(&JobGroup::ReadyForReview), 0);
    assert_eq!(group_order(&JobGroup::Completed), 3);
    let groups = vec![
        JobGroup::Completed,
        JobGroup::Working,
        JobGroup::ReadyForReview,
        JobGroup::Working,
        JobGroup::NeedsInput,
        JobGroup::ReadyForReview,
    ];
    assert_eq!(job_list_order(&groups), vec![2, 5, 4, 1, 3, 0]);
}

#[test]
fn session_filter_until_grep_branch_limit() {
    let f = SessionListFilter {
        since: None,
        until: Some(100),
        grep: Some("Fix".to_string()),
        branch: Some("MAIN".to_string()),
        limit: Some(2),
    };
    assert!(passes_until(&f, 100));
    assert!(!passes_until(&f, 101));
    assert!(passes_metadata(&f, Some("Please fix the bug"), Some("feature/main-x")));
    assert!(!passes_metadata(&f, Some("Please fix the bug"), None));
    assert!(!passes_metadata(&f, None, Some("main")));
    assert!(!passes_metadata(&f, Some("unrelated"), Some("main")));
    assert!(!limit_reached(&f, 1));
    assert!(limit_reached(&f, 2));
    let open = SessionListFilter::default();
    assert!(passes_until(&open, i64::MAX));
    assert!(passes_metadata(&open, None, None));
    assert!(!limit_reached(&open, 1_000_000));
    let empty_grep = SessionListFilter { grep: Some(String::new()), ..SessionListFilter::default() };
    assert!(passes_metadata(&empty_grep, None, None), "an empty title filter passes everything");
}


#[test]
fn completed_jobs_are_done_failed_stopped_or_idle() {
    assert!(is_completed_job(JobState::Done));
    assert!(is_completed_job(JobState::Failed));
    assert!(is_completed_job(JobState::Stopped));
    assert!(is_completed_job(JobState::Idle));
    assert!(!is_completed_job(JobState::Working));
    assert!(!is_completed_job(JobState::Blocked));
}

#[test]
fn job_command_args_use_short_id() {
    assert_eq!(job_command_args(JobAction::Stop, "0123456789abcdef").unwrap(), strs(&["stop", "01234567"]));
    assert_eq!(job_command_args(JobAction::Remove, "abc").unwrap(), strs(&["rm", "abc"]));
    let e = job_command_args(JobAction::Stop, "").unwrap_err();
    assert_eq!(e.message, "job_id must not be empty");
}

#[test]
fn merge_paths_treats_equal_paths_as_one() {
    let entries = strs(&["/usr/bin", "/usr/bin/", "/usr//bin", "/usr/./bin", "/opt/bin", "/usr/local/bin"]);
    assert_eq!(merge_paths(&entries), strs(&["/usr/bin", "/opt/bin", "/usr/local/bin"]));
}

#[test]
fn filter_decision_takes_and_stops_at_limit() {
    let f = SessionListFilter { since: None, until: Some(100), grep: Some("fix".to_string()), branch: None, limit: Some(2) };
    assert_eq!(cdt_api::session_filter::filter_decision(&f, 0, 50, Some("Fix it"), None), (true, false));
    assert_eq!(cdt_api::session_filter::filter_decision(&f, 1, 50, Some("fix"), None), (true, true));
    assert_eq!(cdt_api::session_filter::filter_decision(&f, 0, 150, Some("fix"), None), (false, false));
    assert_eq!(cdt_api::session_filter::filter_decision(&f, 0, 50, Some("other"), None), (false, false));
    let zero = SessionListFilter { limit: Some(0), ..SessionListFilter::default() };
    assert_eq!(cdt_api::session_filter::filter_decision(&zero, 0, 1, None, None), (true, true), "a limit of 0 still returns one session");
}
