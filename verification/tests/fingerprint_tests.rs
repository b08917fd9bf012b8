use cdt_api::session::{
    current_session_fingerprint, make_session_ipc_fingerprint, session_is_stale, session_unchanged,
    STALE_SESSION_THRESHOLD_MS,
};

#[test]
fn fingerprint_stale_bit_produces_different_output() {
    let fp_fresh = make_session_ipc_fingerprint(Some(1_700_000_000_000), Some(4096), false);
    let fp_stale = make_session_ipc_fingerprint(Some(1_700_000_000_000), Some(4096), true);
    assert_ne!(fp_fresh, fp_stale, "stale bit flip SHALL change fingerprint");
    assert!(fp_fresh.starts_with("v2:"), "format SHALL be v2");
    assert!(fp_stale.ends_with(":1"), "stale=true SHALL encode as :1");
    assert!(fp_fresh.ends_with(":0"), "stale=false SHALL encode as :0");
}

#[test]
fn fingerprint_stale_threshold_aligns_with_constant() {
    let threshold_ms = i64::try_from(STALE_SESSION_THRESHOLD_MS).unwrap();
    assert_eq!(threshold_ms, 300_000, "threshold SHALL be 5 minutes");
}

#[test]
fn fingerprint_exact_text_and_missing_values() {
    assert_eq!(
        make_session_ipc_fingerprint(Some(1_700_000_000_000), Some(4096), false),
        "v2:1700000000000:4096:0"
    );
    assert_eq!(make_session_ipc_fingerprint(None, None, false), "v2:0:0:0");
    assert_eq!(make_session_ipc_fingerprint(Some(-5), Some(0), true), "v2:-5:0:1");
    assert_eq!(
        make_session_ipc_fingerprint(Some(i64::MIN), Some(u64::MAX), true),
        "v2:-9223372036854775808:18446744073709551615:1"
    );
}

#[test]
fn staleness_uses_threshold_inclusive() {
    assert!(!session_is_stale(None, 1_000_000));
    assert!(session_is_stale(Some(0), 300_000));
    assert!(!session_is_stale(Some(1), 300_000));
    assert!(session_is_stale(Some(i64::MIN), i64::MAX));
    assert!(!session_is_stale(Some(i64::MAX), i64::MIN));
}

#[test]
fn current_fingerprint_without_mtime_is_fresh() {
    assert_eq!(current_session_fingerprint(None, Some(7)), "v2:0:7:0");
    let fp = current_session_fingerprint(Some(0), Some(1));
    assert!(fp == "v2:0:1:1" || fp == "v2:0:1:0");
}

#[test]
fn unchanged_needs_complete_metadata_and_exact_match() {
    assert!(session_unchanged(Some(1), Some(2), "v2:1:2:0", Some("v2:1:2:0")));
    assert!(!session_unchanged(Some(1), Some(2), "v2:1:2:0", Some("v2:1:2:1")));
    assert!(!session_unchanged(None, Some(2), "v2:0:2:0", Some("v2:0:2:0")));
    assert!(!session_unchanged(Some(1), None, "v2:1:0:0", Some("v2:1:0:0")));
    assert!(!session_unchanged(Some(1), Some(2), "v2:1:2:0", None));
}
