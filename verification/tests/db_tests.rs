use orchestrator_core::db::{LocalDb, ProjectRecord, SyncableRecord};

fn record(id: &str, title: &str, json: &str) -> SyncableRecord {
    SyncableRecord {
        id: Some(id.to_string()),
        title: Some(title.to_string()),
        status: None,
        plan_type: None,
        priority: None,
        description: None,
        due_at: None,
        json: json.to_string(),
    }
}

#[test]
fn test_watcher_paths_crud() {
    let mut db = LocalDb::open();

    // insert
    db.upsert_watcher_path("jungjipdo/orchestrator", "/Users/test/orchestrator");
    let paths = db.get_all_watcher_paths();
    assert_eq!(paths.len(), 1);
    assert_eq!(paths[0].0, "jungjipdo/orchestrator");

    // update
    db.upsert_watcher_path("jungjipdo/orchestrator", "/Users/new/path");
    let paths = db.get_all_watcher_paths();
    assert_eq!(paths[0].1, "/Users/new/path");

    // delete
    db.delete_watcher_path("jungjipdo/orchestrator");
    let paths = db.get_all_watcher_paths();
    assert_eq!(paths.len(), 0);
}

#[test]
fn test_preferences_crud() {
    let mut db = LocalDb::open();

    // set
    db.set_preference("data_collection_consent", "true");
    let val = db.get_preference("data_collection_consent");
    assert_eq!(val, Some("true".to_string()));

    // get nonexistent
    let val = db.get_preference("nonexistent");
    assert_eq!(val, None);
}

#[test]
fn migration_is_idempotent() {
    let mut db = LocalDb::open();
    assert_eq!(db.schema_versions, vec![1, 2]);
    db.migrate();
    assert_eq!(db.schema_versions, vec![1, 2]);
}

#[test]
fn upsert_syncable_appends_one_queue_row_per_call() {
    let mut db = LocalDb::open();
    assert_eq!(db.sync_queue.len(), 0);

    let id = db
        .upsert_syncable("work_items", &record("w1", "first", "{\"id\":\"w1\"}"))
        .unwrap();
    assert_eq!(id, "w1");
    assert_eq!(db.sync_queue.len(), 1);
    assert_eq!(db.sync_queue[0].operation, "insert");
    assert_eq!(db.sync_queue[0].table_name, "work_items");
    assert_eq!(db.sync_queue[0].record_id, "w1");

    // A second call for the same record appends exactly one more row, as
    // an update.
    db.upsert_syncable("work_items", &record("w1", "renamed", "{\"id\":\"w1\"}"))
        .unwrap();
    assert_eq!(db.sync_queue.len(), 2);
    assert_eq!(db.sync_queue[1].operation, "update");

    // A third call for another table appends exactly one more.
    db.upsert_syncable("plans", &record("p1", "plan", "{}")).unwrap();
    assert_eq!(db.sync_queue.len(), 3);
}

#[test]
fn upsert_syncable_rejects_unknown_table() {
    let mut db = LocalDb::open();
    let r = db.upsert_syncable("projects", &record("x", "t", "{}"));
    assert!(r.is_err());
    assert_eq!(db.sync_queue.len(), 0);
    let r = db.upsert_syncable("work_items; DROP TABLE", &record("x", "t", "{}"));
    assert!(r.is_err());
}

#[test]
fn upsert_syncable_generates_id_when_absent() {
    let mut db = LocalDb::open();
    let mut rec = record("ignored", "t", "{}");
    rec.id = None;
    let id = db.upsert_syncable("goals", &rec).unwrap();
    assert_eq!(id.len(), 36);
}

#[test]
fn mark_synced_sets_flags_and_is_idempotent() {
    let mut db = LocalDb::open();
    db.enqueue_sync("work_items", "a", "insert", "{}");
    db.enqueue_sync("work_items", "b", "insert", "{}");
    db.enqueue_sync("plans", "c", "insert", "{}");
    let pending = db.get_pending_sync();
    assert_eq!(pending.len(), 3);
    let ids: Vec<i64> = vec![pending[0].id, pending[1].id, 999];

    db.mark_synced(&ids);
    assert!(db.sync_queue[0].synced);
    assert!(db.sync_queue[1].synced);
    assert!(!db.sync_queue[2].synced);
    let snapshot: Vec<(i64, bool)> = db.sync_queue.iter().map(|r| (r.id, r.synced)).collect();

    // Marking again changes nothing.
    db.mark_synced(&ids);
    let again: Vec<(i64, bool)> = db.sync_queue.iter().map(|r| (r.id, r.synced)).collect();
    assert_eq!(snapshot, again);

    // Marking with no ids changes nothing.
    db.mark_synced(&vec![]);
    let still: Vec<(i64, bool)> = db.sync_queue.iter().map(|r| (r.id, r.synced)).collect();
    assert_eq!(snapshot, still);
}

#[test]
fn no_pending_rows_yields_empty_pending_sync() {
    let mut db = LocalDb::open();
    assert_eq!(db.get_pending_sync().len(), 0);
    db.enqueue_sync("goals", "g", "insert", "{}");
    let ids: Vec<i64> = db.get_pending_sync().iter().map(|r| r.id).collect();
    db.mark_synced(&ids);
    assert_eq!(db.get_pending_sync().len(), 0);
}

#[test]
fn pending_sync_is_oldest_first() {
    let mut db = LocalDb::open();
    db.enqueue_sync("goals", "g1", "insert", "{}");
    db.enqueue_sync("goals", "g2", "update", "{}");
    let pending = db.get_pending_sync();
    assert_eq!(pending.len(), 2);
    assert!(pending[0].id < pending[1].id);
    assert_eq!(pending[0].record_id, "g1");
    assert_eq!(pending[1].record_id, "g2");
}

fn project(repo_full_name: &str, status: Option<&str>) -> ProjectRecord {
    ProjectRecord {
        id: None,
        repo_id: 7,
        repo_name: "repo".to_string(),
        repo_full_name: repo_full_name.to_string(),
        repo_url: format!("https://github.com/{repo_full_name}"),
        description: None,
        default_branch: None,
        language: Some("Rust".to_string()),
        is_private: false,
        status: status.map(|s| s.to_string()),
        metadata_json: "{}".to_string(),
    }
}

#[test]
fn project_upsert_keeps_identity_fields() {
    let mut db = LocalDb::open();
    db.upsert_project(&project("o/r", None));
    assert_eq!(db.projects.len(), 1);
    let id = db.projects[0].id.clone();
    assert_eq!(id.len(), 36);
    assert_eq!(db.projects[0].default_branch, "main");
    assert_eq!(db.projects[0].status, "active");

    // Upserting the same repository updates the mutable fields but keeps
    // the row id.
    let mut rec = project("o/r", Some("archived"));
    rec.description = Some("a repo".to_string());
    db.upsert_project(&rec);
    assert_eq!(db.projects.len(), 1);
    assert_eq!(db.projects[0].id, id);
    assert_eq!(db.projects[0].status, "archived");
    assert_eq!(db.projects[0].description, Some("a repo".to_string()));

    db.upsert_project(&project("o/s", None));
    let all = db.get_all_projects();
    assert_eq!(all.len(), 2);
    // Newest insertion first.
    assert_eq!(all[0].repo_full_name, "o/s");
    assert_eq!(all[1].repo_full_name, "o/r");

    db.delete_project(&id);
    assert_eq!(db.projects.len(), 1);
    assert_eq!(db.projects[0].repo_full_name, "o/s");
}

#[test]
fn editor_models_upsert_and_list() {
    let mut db = LocalDb::open();
    db.upsert_editor_models("cursor", &vec!["m1".to_string(), "m2".to_string()]);
    db.upsert_editor_models("zed", &vec!["m3".to_string()]);
    db.upsert_editor_models("cursor", &vec!["m9".to_string()]);
    let all = db.get_all_editor_models();
    assert_eq!(all.len(), 2);
    assert_eq!(all[0].editor_type, "cursor");
    assert_eq!(all[0].supported_models, vec!["m9".to_string()]);
    assert_eq!(all[1].editor_type, "zed");
}

#[test]
fn syncable_listing_is_newest_first_per_table() {
    let mut db = LocalDb::open();
    db.upsert_syncable("work_items", &record("w1", "first", "{}")).unwrap();
    db.upsert_syncable("plans", &record("p1", "plan", "{}")).unwrap();
    db.upsert_syncable("work_items", &record("w2", "second", "{}")).unwrap();
    let items = db.get_all_syncable("work_items").unwrap();
    assert_eq!(items.len(), 2);
    assert_eq!(items[0].id, "w2");
    assert_eq!(items[1].id, "w1");
    assert_eq!(items[0].sync_status, "pending");
    let err = db.get_all_syncable("sync_queue").unwrap_err();
    assert_eq!(err.describe(), "table is not one of the syncable tables");
}

#[test]
fn syncable_update_applies_optional_columns() {
    let mut db = LocalDb::open();
    db.upsert_syncable("plans", &record("p1", "plan", "{\"v\":1}")).unwrap();
    // Insert leaves the optional columns empty even when provided later.
    assert!(db.syncables[0].priority.is_none());

    let mut rec = record("p1", "plan renamed", "{\"v\":2}");
    rec.priority = Some("high".to_string());
    rec.status = Some("active".to_string());
    db.upsert_syncable("plans", &rec).unwrap();
    assert_eq!(db.syncables.len(), 1);
    assert_eq!(db.syncables[0].title, "plan renamed");
    assert_eq!(db.syncables[0].status, "active");
    assert_eq!(db.syncables[0].priority, Some("high".to_string()));
    assert_eq!(db.syncables[0].metadata, "{\"v\":2}");
}
