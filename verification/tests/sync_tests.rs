use orchestrator_core::sync::{
    build_failed_event, classify_post_status, file_change_payload, load_supabase_config,
    parse_env, plan_retry, rebuild_retry_event, repo_name_from_git_config, settle_retry,
    FailedEvent, RetryPlan, SupabaseConfig, SyncClient,
};

#[test]
fn test_parse_env() {
    let content = r#"
VITE_SUPABASE_URL=https://example.supabase.co
VITE_SUPABASE_ANON_KEY="my-key-123"
# comment line
SOME_OTHER=value
"#;
    let vars = parse_env(content);
    assert_eq!(
        vars.get("VITE_SUPABASE_URL").unwrap(),
        "https://example.supabase.co"
    );
    assert_eq!(vars.get("VITE_SUPABASE_ANON_KEY").unwrap(), "my-key-123");
    assert_eq!(vars.get("SOME_OTHER").unwrap(), "value");
}

#[test]
fn test_parse_env_single_quotes() {
    let content = "ORCHX_SUPABASE_URL='https://test.supabase.co'\n";
    let vars = parse_env(content);
    assert_eq!(
        vars.get("ORCHX_SUPABASE_URL").unwrap(),
        "https://test.supabase.co"
    );
}

#[test]
fn parse_env_later_line_wins() {
    let vars = parse_env("K=a\nK=b\n");
    assert_eq!(vars.get("K").unwrap(), "b");
    assert!(vars.get("MISSING").is_none());
}

#[test]
fn config_prefers_orchx_keys_and_first_file() {
    let local = "ORCHX_SUPABASE_URL=https://a.example\nORCHX_SUPABASE_ANON_KEY=test-anon-key\n"
        .to_string();
    let fallback =
        "VITE_SUPABASE_URL=https://b.example\nVITE_SUPABASE_ANON_KEY=test-anon-key\n".to_string();
    let cfg = load_supabase_config(&vec![local.clone(), fallback.clone()]).unwrap();
    assert_eq!(cfg.url, "https://a.example");

    // The first file missing a key falls through to the second.
    let partial = "ORCHX_SUPABASE_URL=https://a.example\n".to_string();
    let cfg = load_supabase_config(&vec![partial, fallback]).unwrap();
    assert_eq!(cfg.url, "https://b.example");

    // No file with both yields nothing.
    assert!(load_supabase_config(&vec!["X=1\n".to_string()]).is_none());
}

#[test]
fn repo_name_from_https_remote() {
    let config = "[core]\n\trepositoryformatversion = 0\n[remote \"origin\"]\n\turl = https://github.com/owner/repo.git\n\tfetch = +refs/heads/*:refs/remotes/origin/*\n";
    assert_eq!(repo_name_from_git_config(config).unwrap(), "owner/repo");
}

#[test]
fn repo_name_from_ssh_remote() {
    let config = "[remote \"origin\"]\n\turl = git@github.com:owner/repo.git\n";
    assert_eq!(repo_name_from_git_config(config).unwrap(), "owner/repo");
}

#[test]
fn repo_name_absent_without_origin_section() {
    let config = "[remote \"upstream\"]\n\turl = https://github.com/other/thing.git\n";
    assert!(repo_name_from_git_config(config).is_none());
    assert!(repo_name_from_git_config("").is_none());
}

#[test]
fn post_acceptance_classification() {
    assert!(classify_post_status(200));
    assert!(classify_post_status(201));
    assert!(classify_post_status(204));
    // A conflict means the remote already holds the event id: idempotent
    // success.
    assert!(classify_post_status(409));
    assert!(!classify_post_status(400));
    assert!(!classify_post_status(500));
    assert!(!classify_post_status(199));
    assert!(!classify_post_status(300));
}

#[test]
fn file_change_payload_is_exact_json() {
    let p = file_change_payload("src/a.txt", None, None);
    assert_eq!(
        p,
        "{\"event_type\":\"change\",\"file\":\"src/a.txt\",\"violation\":null}"
    );
    let violation = "path 'x' is not in the allowed paths".to_string();
    let repo = "owner/repo".to_string();
    let p = file_change_payload("x", Some(&violation), Some(&repo));
    assert_eq!(
        p,
        "{\"event_type\":\"change\",\"file\":\"x\",\"repo_full_name\":\"owner/repo\",\"violation\":\"path 'x' is not in the allowed paths\"}"
    );
}

#[test]
fn file_change_payload_escapes_content() {
    let p = file_change_payload("a\"b\\c\nd", None, None);
    assert_eq!(
        p,
        "{\"event_type\":\"change\",\"file\":\"a\\\"b\\\\c\\nd\",\"violation\":null}"
    );
    let p = file_change_payload("tab\there\u{1}", None, None);
    assert_eq!(
        p,
        "{\"event_type\":\"change\",\"file\":\"tab\\there\\u0001\",\"violation\":null}"
    );
}

#[test]
fn build_event_assigns_fresh_pending_event() {
    let client = SyncClient::new(
        SupabaseConfig {
            url: "https://example.supabase.co".to_string(),
            anon_key: "test-anon-key".to_string(),
        },
        "/tmp/r".to_string(),
    );
    let ev = client.build_event("file.changed", "{}".to_string(), Some("s1".to_string()));
    assert_eq!(ev.event_id.len(), 36);
    assert_eq!(ev.event_type, "file.changed");
    assert_eq!(ev.status, "pending");
    assert_eq!(ev.retry_count, 0);
    assert_eq!(ev.session_id, Some("s1".to_string()));
    let ev2 = client.build_event("file.changed", "{}".to_string(), None);
    assert_ne!(ev.event_id, ev2.event_id);
    assert_eq!(
        client.events_url(),
        "https://example.supabase.co/rest/v1/cli_events"
    );
    assert_eq!(
        client.connection_check_url(),
        "https://example.supabase.co/rest/v1/cli_events?select=id&limit=1"
    );
}

#[test]
fn resolve_repo_name_records_on_success_only() {
    let mut client = SyncClient::new(
        SupabaseConfig { url: "u".to_string(), anon_key: "test-anon-key".to_string() },
        "/tmp/r".to_string(),
    );
    assert!(client.resolve_repo_name(None).is_none());
    assert!(client.repo_full_name.is_none());
    assert!(client.resolve_repo_name(Some("[core]\n")).is_none());
    assert!(client.repo_full_name.is_none());
    let name = client
        .resolve_repo_name(Some("[remote \"origin\"]\n\turl = git@github.com:o/r.git\n"))
        .unwrap();
    assert_eq!(name, "o/r");
    assert_eq!(client.repo_full_name, Some("o/r".to_string()));
}

fn failed(retry_count: u32) -> FailedEvent {
    FailedEvent {
        event_id: "11111111-2222-3333-4444-555555555555".to_string(),
        event_type: "file.changed".to_string(),
        payload: "{}".to_string(),
        session_id: None,
        failed_at: "2024-01-01T00:00:00+00:00".to_string(),
        retry_count,
        error: "send failed (500)".to_string(),
    }
}

#[test]
fn retry_success_drops_the_entry() {
    // A spooled failure is retried after a one-second backoff; when the
    // remote then accepts, the entry leaves the spool and the summary is
    // one attempted, one succeeded.
    let spool = vec![failed(0)];
    let mut remaining: Vec<FailedEvent> = Vec::new();
    let mut succeeded = 0u32;
    for ev in &spool {
        match plan_retry(ev) {
            RetryPlan::Exhausted => remaining.push(ev.clone()),
            RetryPlan::Attempt(delay) => {
                assert_eq!(delay, 1000);
                let repost = rebuild_retry_event(ev);
                assert_eq!(repost.event_id, ev.event_id);
                assert_eq!(repost.retry_count, 1);
                let accepted = classify_post_status(200);
                match settle_retry(ev, accepted, "") {
                    None => succeeded += 1,
                    Some(f) => remaining.push(f),
                }
            }
        }
    }
    assert_eq!((spool.len() as u32, succeeded), (1, 1));
    assert!(remaining.is_empty());
}

#[test]
fn retry_exhaustion_leaves_entries_in_place() {
    // Entries that already failed three times are not retried again: the
    // spool keeps them and nothing succeeds.
    let spool = vec![failed(3), failed(3)];
    let mut remaining: Vec<FailedEvent> = Vec::new();
    let mut succeeded = 0u32;
    for ev in &spool {
        match plan_retry(ev) {
            RetryPlan::Exhausted => remaining.push(ev.clone()),
            RetryPlan::Attempt(_) => {
                let accepted = classify_post_status(500);
                match settle_retry(ev, accepted, "send failed (500)") {
                    None => succeeded += 1,
                    Some(f) => remaining.push(f),
                }
            }
        }
    }
    assert_eq!((spool.len() as u32, succeeded), (2, 0));
    assert_eq!(remaining.len(), 2);
    assert_eq!(remaining[0].retry_count, 3);
}

#[test]
fn retry_failure_advances_count_and_backoff() {
    let ev = failed(1);
    match plan_retry(&ev) {
        RetryPlan::Attempt(d) => assert_eq!(d, 2000),
        RetryPlan::Exhausted => panic!("retry_count 1 must be attempted"),
    }
    let again = settle_retry(&ev, false, "send failed (503)").unwrap();
    assert_eq!(again.retry_count, 2);
    assert_eq!(again.error, "send failed (503)");
    assert_eq!(again.event_id, ev.event_id);
    match plan_retry(&again) {
        RetryPlan::Attempt(d) => assert_eq!(d, 4000),
        RetryPlan::Exhausted => panic!("retry_count 2 must be attempted"),
    }
}

#[test]
fn spooled_failure_keeps_event_identity() {
    let client = SyncClient::new(
        SupabaseConfig { url: "u".to_string(), anon_key: "test-anon-key".to_string() },
        "/tmp/r".to_string(),
    );
    let ev = client.build_event("file.changed", "{\"k\":1}".to_string(), None);
    let f = build_failed_event(&ev, "send failed (500)", "2024-01-01T00:00:00+00:00".to_string());
    assert_eq!(f.event_id, ev.event_id);
    assert_eq!(f.payload, ev.payload);
    assert_eq!(f.retry_count, 0);
    assert_eq!(f.error, "send failed (500)");
}
