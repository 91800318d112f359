use orchestrator_core::resolver::{normalize_repo_url, repo_name_of_url, resolve_local_paths, RepoCandidate};
use orchestrator_core::supervisor::{Supervisor, WatchAction};

#[test]
fn add_project_requires_an_existing_path() {
    let mut sup = Supervisor::boot(vec![]);
    let err = sup.add_watch_project("o/r", "/nope", false).unwrap_err();
    assert_eq!(err, "path does not exist: /nope");
    assert_eq!(sup.projects.len(), 0);
}

#[test]
fn add_project_registers_and_starts_when_enabled() {
    let mut sup = Supervisor::boot(vec![]);
    let actions = sup.add_watch_project("o/r", "/tmp/r", true).unwrap();
    assert_eq!(actions.len(), 1);
    match &actions[0] {
        WatchAction::Start(repo, path) => {
            assert_eq!(repo, "o/r");
            assert_eq!(path, "/tmp/r");
        }
        _ => panic!("an enabled supervisor starts the new watcher"),
    }
    assert_eq!(sup.projects, vec![("o/r".to_string(), "/tmp/r".to_string())]);
    assert_eq!(sup.watching, vec!["o/r".to_string()]);

    // Adding the same repository again stops the old watcher first and
    // updates the stored path.
    let actions = sup.add_watch_project("o/r", "/tmp/r2", true).unwrap();
    assert_eq!(actions.len(), 2);
    match &actions[0] {
        WatchAction::Stop(repo) => assert_eq!(repo, "o/r"),
        _ => panic!("the running watcher is stopped first"),
    }
    assert_eq!(sup.projects, vec![("o/r".to_string(), "/tmp/r2".to_string())]);
}

#[test]
fn remove_project_stops_and_forgets() {
    let mut sup = Supervisor::boot(vec![]);
    sup.add_watch_project("o/r", "/tmp/r", true).unwrap();
    sup.add_watch_project("o/s", "/tmp/s", true).unwrap();
    let actions = sup.remove_watch_project("o/r");
    assert_eq!(actions.len(), 1);
    match &actions[0] {
        WatchAction::Stop(repo) => assert_eq!(repo, "o/r"),
        _ => panic!("removal stops the watcher"),
    }
    assert_eq!(sup.projects, vec![("o/s".to_string(), "/tmp/s".to_string())]);
    assert_eq!(sup.watching, vec!["o/s".to_string()]);

    // Removing an unknown repository is a quiet no-op.
    let actions = sup.remove_watch_project("missing/repo");
    assert_eq!(actions.len(), 0);
}

#[test]
fn toggle_stops_everything_then_restarts_everything() {
    let mut sup = Supervisor::boot(vec![
        ("o/r".to_string(), "/tmp/r".to_string()),
        ("o/s".to_string(), "/tmp/s".to_string()),
    ]);
    // Boot leaves watchers stopped until the shell asks; enable them.
    let (actions, enabled, count) = sup.toggle_watch_all();
    // Boot state is enabled, so the first toggle disables.
    assert!(!enabled);
    assert_eq!(count, 2);
    assert_eq!(actions.len(), 0);
    assert_eq!(sup.watching.len(), 0);

    let (actions, enabled, count) = sup.toggle_watch_all();
    assert!(enabled);
    assert_eq!(count, 2);
    assert_eq!(actions.len(), 2);
    match &actions[0] {
        WatchAction::Start(repo, path) => {
            assert_eq!(repo, "o/r");
            assert_eq!(path, "/tmp/r");
        }
        _ => panic!("enabling starts every project"),
    }
    assert_eq!(sup.watching, vec!["o/r".to_string(), "o/s".to_string()]);

    let (actions, enabled, _) = sup.toggle_watch_all();
    assert!(!enabled);
    assert_eq!(actions.len(), 2);
    match &actions[1] {
        WatchAction::Stop(repo) => assert_eq!(repo, "o/s"),
        _ => panic!("disabling stops every watcher"),
    }
    assert_eq!(sup.watching.len(), 0);
}

#[test]
fn watch_status_snapshots_the_registry() {
    let mut sup = Supervisor::boot(vec![("o/r".to_string(), "/tmp/r".to_string())]);
    let (enabled, projects) = sup.get_watch_status();
    assert!(enabled);
    assert_eq!(projects, vec![("o/r".to_string(), "/tmp/r".to_string(), false)]);
    sup.add_watch_project("o/s", "/tmp/s", true).unwrap();
    let (_, projects) = sup.get_watch_status();
    assert_eq!(projects.len(), 2);
    assert!(!projects[0].2);
    assert!(projects[1].2);
}

#[test]
fn start_failure_unlists_the_repository() {
    let mut sup = Supervisor::boot(vec![]);
    sup.add_watch_project("o/r", "/tmp/r", true).unwrap();
    sup.mark_not_watching("o/r");
    assert_eq!(sup.watching.len(), 0);
    let (_, projects) = sup.get_watch_status();
    assert_eq!(projects, vec![("o/r".to_string(), "/tmp/r".to_string(), false)]);
}

#[test]
fn shutdown_stops_every_watcher() {
    let mut sup = Supervisor::boot(vec![]);
    sup.add_watch_project("o/r", "/tmp/r", true).unwrap();
    sup.add_watch_project("o/s", "/tmp/s", true).unwrap();
    let actions = sup.shutdown_actions();
    assert_eq!(actions.len(), 2);
    for a in &actions {
        match a {
            WatchAction::Stop(_) => {}
            _ => panic!("shutdown only stops"),
        }
    }
}

#[test]
fn url_normalization_unifies_ssh_and_https() {
    assert_eq!(
        normalize_repo_url("git@github.com:Owner/Repo.git"),
        "https://github.com/owner/repo"
    );
    assert_eq!(
        normalize_repo_url("https://github.com/Owner/Repo"),
        "https://github.com/owner/repo"
    );
    assert_eq!(repo_name_of_url("https://github.com/Owner/Repo.git"), "Owner/Repo");
    assert_eq!(repo_name_of_url("git@github.com:Owner/Repo.git"), "Owner/Repo");
}

#[test]
fn resolver_keeps_the_newest_matching_clone() {
    let candidates = vec![
        RepoCandidate {
            remote_url: "git@github.com:Owner/Repo.git".to_string(),
            project_dir: "/home/u/old-clone".to_string(),
            commit_ts: 100,
        },
        RepoCandidate {
            remote_url: "https://github.com/owner/repo.git".to_string(),
            project_dir: "/home/u/new-clone".to_string(),
            commit_ts: 200,
        },
        RepoCandidate {
            remote_url: "https://github.com/other/project".to_string(),
            project_dir: "/home/u/unrelated".to_string(),
            commit_ts: 999,
        },
    ];
    let urls = vec!["https://github.com/Owner/Repo.git".to_string()];
    let resolved = resolve_local_paths(&candidates, &urls);
    assert_eq!(resolved, vec![("Owner/Repo".to_string(), "/home/u/new-clone".to_string())]);
}

#[test]
fn resolver_prefers_the_earlier_clone_on_ties() {
    let candidates = vec![
        RepoCandidate {
            remote_url: "https://github.com/o/r".to_string(),
            project_dir: "/a".to_string(),
            commit_ts: 100,
        },
        RepoCandidate {
            remote_url: "https://github.com/o/r".to_string(),
            project_dir: "/b".to_string(),
            commit_ts: 100,
        },
    ];
    let urls = vec!["https://github.com/o/r".to_string()];
    let resolved = resolve_local_paths(&candidates, &urls);
    assert_eq!(resolved, vec![("o/r".to_string(), "/a".to_string())]);
}
