use orchestrator_core::contract::ContractEnforcer;
use orchestrator_core::session::ExecutionContract;
use orchestrator_core::watch::{
    event_kind_to_str, is_ignored, relative_to, FsEventKind, WatcherCore, WatchOutcome,
};

fn unrestricted_core(root: &str) -> WatcherCore {
    WatcherCore::new(
        root.to_string(),
        ContractEnforcer::new(ExecutionContract::default()),
        0,
        0,
    )
}

#[test]
fn event_kinds_translate_to_wire_names() {
    assert_eq!(event_kind_to_str(&FsEventKind::Create), Some("add"));
    assert_eq!(event_kind_to_str(&FsEventKind::Modify), Some("change"));
    assert_eq!(event_kind_to_str(&FsEventKind::Remove), Some("unlink"));
    assert_eq!(event_kind_to_str(&FsEventKind::Other), None);
}

#[test]
fn ignored_components_are_detected() {
    assert!(is_ignored("node_modules"));
    assert!(is_ignored("a/node_modules/b.js"));
    assert!(is_ignored(".git/objects/ab/cdef"));
    assert!(is_ignored("deep/target/debug/x"));
    assert!(!is_ignored("src/main.rs"));
    assert!(!is_ignored("node_modules_like/file.txt"));
    assert!(!is_ignored("my.git/file.txt"));
}

#[test]
fn relative_paths_strip_the_root() {
    assert_eq!(relative_to("/tmp/r", "/tmp/r/src/a.txt"), "src/a.txt");
    assert_eq!(relative_to("/tmp/r", "/tmp/r"), "");
    assert_eq!(relative_to("/tmp/r", "/elsewhere/b"), "/elsewhere/b");
    // A string prefix that is not a component boundary is not stripped.
    assert_eq!(relative_to("/tmp/r", "/tmp/rogue/c"), "/tmp/rogue/c");
}

#[test]
fn single_file_change_emits_once() {
    // A created file in an unrestricted repository: one emission with the
    // relative path, the "add" type, no violation, and the counter at 1.
    let mut core = unrestricted_core("/tmp/r");
    match core.handle_event("/tmp/r/src/a.txt", &FsEventKind::Create, 10_000) {
        WatchOutcome::Changed(ev, count) => {
            assert_eq!(ev.path, "src/a.txt");
            assert_eq!(ev.event_type, "add");
            assert!(ev.violation.is_none());
            assert_eq!(count, 1);
        }
        _ => panic!("a plain create must be emitted"),
    }
    assert_eq!(core.files_changed, 1);
    assert_eq!(core.commits_detected, 0);
}

#[test]
fn contract_violation_annotates_but_does_not_block() {
    let mut core = WatcherCore::new(
        "/tmp/r".to_string(),
        ContractEnforcer::new(ExecutionContract {
            allowed_paths: vec!["src/**".to_string()],
            allowed_commands: vec![],
        }),
        0,
        0,
    );
    match core.handle_event("/tmp/r/config/x.toml", &FsEventKind::Modify, 10_000) {
        WatchOutcome::Changed(ev, count) => {
            assert_eq!(ev.path, "config/x.toml");
            assert_eq!(ev.event_type, "change");
            let reason = ev.violation.expect("the violation must be reported");
            assert!(reason.contains("config/x.toml"));
            assert_eq!(count, 1);
        }
        _ => panic!("a violating change is still emitted"),
    }
    assert_eq!(core.files_changed, 1);
}

#[test]
fn commit_inference_counts_without_emitting() {
    // Touching a ref under .git/refs is a commit: the commit counter
    // advances, and no file change is emitted.
    let mut core = unrestricted_core("/tmp/r");
    match core.handle_event("/tmp/r/.git/refs/heads/main", &FsEventKind::Modify, 10_000) {
        WatchOutcome::CommitDetected(count) => assert_eq!(count, 1),
        _ => panic!("a ref change must be inferred as a commit"),
    }
    assert_eq!(core.commits_detected, 1);
    assert_eq!(core.files_changed, 0);
}

#[test]
fn git_objects_are_ignored() {
    let mut core = unrestricted_core("/tmp/r");
    match core.handle_event("/tmp/r/.git/objects/ab/cdef0123", &FsEventKind::Create, 10_000) {
        WatchOutcome::Skipped => {}
        _ => panic!("object-store writes must be dropped"),
    }
    assert_eq!(core.files_changed, 0);
    assert_eq!(core.commits_detected, 0);
}

#[test]
fn node_modules_component_is_ignored() {
    let mut core = unrestricted_core("/tmp/r");
    match core.handle_event("/tmp/r/web/node_modules/pkg/index.js", &FsEventKind::Modify, 10_000) {
        WatchOutcome::Skipped => {}
        _ => panic!("node_modules must be dropped"),
    }
    assert_eq!(core.files_changed, 0);
}

#[test]
fn debounce_suppresses_second_event_within_window() {
    // Two raw events for the same path within 1000 ms yield at most one
    // emission.
    let mut core = unrestricted_core("/tmp/r");
    match core.handle_event("/tmp/r/src/a.txt", &FsEventKind::Modify, 5_000) {
        WatchOutcome::Changed(_, _) => {}
        _ => panic!("the first event must be emitted"),
    }
    match core.handle_event("/tmp/r/src/a.txt", &FsEventKind::Modify, 5_999) {
        WatchOutcome::Skipped => {}
        _ => panic!("the second event inside the window must be dropped"),
    }
    assert_eq!(core.files_changed, 1);

    // A different path inside the window still goes through.
    match core.handle_event("/tmp/r/src/b.txt", &FsEventKind::Modify, 5_500) {
        WatchOutcome::Changed(_, count) => assert_eq!(count, 2),
        _ => panic!("another path is not debounced"),
    }

    // The same path after the window goes through again.
    match core.handle_event("/tmp/r/src/a.txt", &FsEventKind::Modify, 6_000) {
        WatchOutcome::Changed(_, count) => assert_eq!(count, 3),
        _ => panic!("the window has passed"),
    }
}

#[test]
fn stopped_core_drops_everything() {
    let mut core = unrestricted_core("/tmp/r");
    core.stop();
    match core.handle_event("/tmp/r/src/a.txt", &FsEventKind::Create, 10_000) {
        WatchOutcome::Skipped => {}
        _ => panic!("a stopped watcher emits nothing"),
    }
    assert_eq!(core.files_changed, 0);
}

#[test]
fn unknown_kinds_are_dropped() {
    let mut core = unrestricted_core("/tmp/r");
    match core.handle_event("/tmp/r/src/a.txt", &FsEventKind::Other, 10_000) {
        WatchOutcome::Skipped => {}
        _ => panic!("unrecognized kinds are dropped"),
    }
}

#[test]
fn counters_restore_from_session() {
    let mut core = WatcherCore::new(
        "/tmp/r".to_string(),
        ContractEnforcer::new(ExecutionContract::default()),
        7,
        2,
    );
    match core.handle_event("/tmp/r/x.md", &FsEventKind::Modify, 10_000) {
        WatchOutcome::Changed(_, count) => assert_eq!(count, 8),
        _ => panic!("must emit"),
    }
    match core.handle_event("/tmp/r/.git/refs/heads/dev", &FsEventKind::Modify, 10_000) {
        WatchOutcome::CommitDetected(count) => assert_eq!(count, 3),
        _ => panic!("must infer a commit"),
    }
}
