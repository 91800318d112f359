use orchestrator_core::oauth::{extract_code, OAuthServer};
use orchestrator_core::offline::{
    detect_offline_changes, git_changes_from_diff, offline_walk_skips, FileStamp,
};
use orchestrator_core::session::{
    format_shutdown_timestamp, orchestrator_dir, parse_shutdown_timestamp, session_file,
    shutdown_file, shutdown_round_trip, Session,
};

#[test]
fn callback_url_carries_the_port() {
    let server = OAuthServer::from_port(51234);
    assert_eq!(server.callback_url(), "http://127.0.0.1:51234/auth/callback");
    let server = OAuthServer::from_port(80);
    assert_eq!(server.callback_url(), "http://127.0.0.1:80/auth/callback");
}

#[test]
fn extract_code_reads_the_query() {
    let request = "GET /auth/callback?code=abc123&state=xyz HTTP/1.1\r\nHost: 127.0.0.1\r\n\r\n";
    assert_eq!(extract_code(request).unwrap(), "abc123");
    let request = "GET /auth/callback?state=xyz&code=late HTTP/1.1\r\n";
    assert_eq!(extract_code(request).unwrap(), "late");
}

#[test]
fn extract_code_absent_yields_none() {
    assert!(extract_code("GET /auth/callback?state=xyz HTTP/1.1\r\n").is_none());
    assert!(extract_code("GET /auth/callback HTTP/1.1\r\n").is_none());
    assert!(extract_code("").is_none());
    assert!(extract_code("GARBAGE").is_none());
}

#[test]
fn shutdown_timestamp_round_trips_to_second_precision() {
    // 2024-01-01T00:00:00Z
    assert_eq!(shutdown_round_trip(1704067200), Some(1704067200));
    assert_eq!(shutdown_round_trip(0), Some(0));
    assert_eq!(shutdown_round_trip(-1), Some(-1));
}

#[test]
fn shutdown_timestamp_renders_rfc3339() {
    let s = format_shutdown_timestamp(1704067200).unwrap();
    assert_eq!(s, "2024-01-01T00:00:00+00:00");
    assert_eq!(parse_shutdown_timestamp(&s), Some(1704067200));
    assert_eq!(parse_shutdown_timestamp("2024-01-01T00:00:00Z"), Some(1704067200));
    assert_eq!(parse_shutdown_timestamp("not a time"), None);
}

#[test]
fn orchestrator_paths_join_the_root() {
    assert_eq!(orchestrator_dir("/tmp/r"), "/tmp/r/.orchestrator");
    assert_eq!(session_file("/tmp/r"), "/tmp/r/.orchestrator/session.json");
    assert_eq!(shutdown_file("/tmp/r"), "/tmp/r/.orchestrator/last_shutdown");
}

#[test]
fn session_stats_update_preserves_identity() {
    let mut s = Session {
        session_id: "sid".to_string(),
        agent_type: "agent".to_string(),
        task_name: "task".to_string(),
        files_changed: 1,
        commits_detected: 0,
        execution_contract: None,
    };
    s.update_stats(5, 2);
    assert_eq!(s.files_changed, 5);
    assert_eq!(s.commits_detected, 2);
    assert_eq!(s.session_id, "sid");
    assert_eq!(s.task_name, "task");
}

#[test]
fn git_diff_lines_become_changes() {
    let out = git_changes_from_diff(true, "src/a.rs\n\nREADME.md\n");
    assert_eq!(out, vec!["src/a.rs".to_string(), "README.md".to_string()]);
    // A failed diff command yields nothing.
    assert_eq!(git_changes_from_diff(false, "src/a.rs\n").len(), 0);
}

#[test]
fn offline_walk_skip_list() {
    assert!(offline_walk_skips("node_modules"));
    assert!(offline_walk_skips(".git"));
    assert!(offline_walk_skips(".orchestrator"));
    assert!(!offline_walk_skips(".tauri"));
    assert!(!offline_walk_skips("src"));
}

#[test]
fn offline_diff_reports_files_touched_after_shutdown() {
    // With last_shutdown at 2024-01-01T00:00:00Z, a file modified on
    // 2024-01-02 shows up in the timestamp changes.
    let files = vec![
        FileStamp { relative_path: "x.md".to_string(), mtime_secs: 1704153600 },
        FileStamp { relative_path: "old.md".to_string(), mtime_secs: 1703980800 },
    ];
    let r = detect_offline_changes(true, "x.md\n", &files, Some(1704067200));
    assert_eq!(r.timestamp_changes, vec!["x.md".to_string()]);
    assert_eq!(r.git_changes, vec!["x.md".to_string()]);
    assert_eq!(r.last_shutdown, Some("2024-01-01T00:00:00+00:00".to_string()));
}

#[test]
fn offline_diff_without_shutdown_reports_no_timestamps() {
    let files = vec![FileStamp { relative_path: "x.md".to_string(), mtime_secs: 1704153600 }];
    let r = detect_offline_changes(true, "", &files, None);
    assert_eq!(r.timestamp_changes.len(), 0);
    assert!(r.last_shutdown.is_none());
}
