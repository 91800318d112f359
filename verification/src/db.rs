//! In-memory model of the local durable store: a versioned migration ledger,
//! the watcher-path and preference catalogs, the project catalog, the
//! editor-model metadata, the syncable entity tables, and the write-ahead
//! sync queue. Every operation carries a full contract; the surrounding
//! process mirrors the same transitions onto its embedded database file.

use vstd::prelude::*;
use crate::strutil;

verus! {

/// A watched repository: `repo_full_name` is the unique key.
#[derive(Debug, Clone)]
pub struct WatcherPathRow {
    pub repo_full_name: String,
    pub local_path: String,
    pub watching: bool,
}

/// A user preference: `key` is the unique key.
#[derive(Debug, Clone)]
pub struct PreferenceRow {
    pub key: String,
    pub value: String,
}

/// A catalog entry for a remote repository: `repo_full_name` is the unique
/// key; `metadata` holds serialized JSON text.
#[derive(Debug, Clone)]
pub struct ProjectRow {
    pub id: String,
    pub repo_id: i64,
    pub repo_name: String,
    pub repo_full_name: String,
    pub repo_url: String,
    pub description: Option<String>,
    pub default_branch: String,
    pub language: Option<String>,
    pub is_private: bool,
    pub status: String,
    pub metadata: String,
}

/// Supported models per editor: `editor_type` is the unique key.
#[derive(Debug, Clone)]
pub struct EditorModelsRow {
    pub editor_type: String,
    pub supported_models: Vec<String>,
}

/// A row of one of the syncable entity tables; `(table_name, id)` is the
/// unique key. `metadata` holds the full record JSON text most recently
/// upserted for the row.
#[derive(Debug, Clone)]
pub struct SyncableRow {
    pub table_name: String,
    pub id: String,
    pub title: String,
    pub status: String,
    pub plan_type: Option<String>,
    pub priority: Option<String>,
    pub description: Option<String>,
    pub due_at: Option<String>,
    pub metadata: String,
    pub sync_status: String,
}

/// A row of the write-ahead sync queue; `id` is assigned by the store and
/// strictly increases with insertion order.
#[derive(Debug, Clone)]
pub struct SyncQueueRow {
    pub id: i64,
    pub table_name: String,
    pub record_id: String,
    pub operation: String,
    pub payload: String,
    pub synced: bool,
}

/// Mathematical image of a sync-queue row.
pub struct SyncQueueRowV {
    pub id: i64,
    pub table_name: Seq<char>,
    pub record_id: Seq<char>,
    pub operation: Seq<char>,
    pub payload: Seq<char>,
    pub synced: bool,
}

impl DeepView for SyncQueueRow {
    type V = SyncQueueRowV;

    open spec fn deep_view(&self) -> SyncQueueRowV {
        SyncQueueRowV {
            id: self.id,
            table_name: self.table_name@,
            record_id: self.record_id@,
            operation: self.operation@,
            payload: self.payload@,
            synced: self.synced,
        }
    }
}

/// The in-memory store.
pub struct LocalDb {
    pub schema_versions: Vec<u64>,
    pub watcher_paths: Vec<WatcherPathRow>,
    pub preferences: Vec<PreferenceRow>,
    pub projects: Vec<ProjectRow>,
    pub editor_models: Vec<EditorModelsRow>,
    pub syncables: Vec<SyncableRow>,
    pub sync_queue: Vec<SyncQueueRow>,
    pub next_queue_id: i64,
}

/// How one watcher-path row is affected by an upsert of `(key, path)`: the
/// keyed row takes the new path and keeps its flag, every other row is
/// untouched.
pub open spec fn wp_upserted_row(
    pre: WatcherPathRow,
    post: WatcherPathRow,
    key: Seq<char>,
    path: Seq<char>,
) -> bool {
    if pre.repo_full_name@ == key {
        post.repo_full_name@ == pre.repo_full_name@ && post.local_path@ == path && post.watching
            == pre.watching
    } else {
        post == pre
    }
}

/// How one preference row is affected by setting `(key, value)`.
pub open spec fn pref_set_row(
    pre: PreferenceRow,
    post: PreferenceRow,
    key: Seq<char>,
    value: Seq<char>,
) -> bool {
    if pre.key@ == key {
        post.key@ == pre.key@ && post.value@ == value
    } else {
        post == pre
    }
}

/// A repository key occurs in the watcher-path table.
pub open spec fn wp_has(rows: Seq<WatcherPathRow>, key: Seq<char>) -> bool {
    exists|i: int| 0 <= i < rows.len() && rows[i].repo_full_name@ == key
}

/// A preference key occurs in the preference table.
pub open spec fn pref_has(rows: Seq<PreferenceRow>, key: Seq<char>) -> bool {
    exists|i: int| 0 <= i < rows.len() && rows[i].key@ == key
}

/// A repository key occurs in the project catalog.
pub open spec fn proj_has(rows: Seq<ProjectRow>, key: Seq<char>) -> bool {
    exists|i: int| 0 <= i < rows.len() && rows[i].repo_full_name@ == key
}

/// An editor type occurs in the editor-model table.
pub open spec fn em_has(rows: Seq<EditorModelsRow>, key: Seq<char>) -> bool {
    exists|i: int| 0 <= i < rows.len() && rows[i].editor_type@ == key
}

/// A `(table, id)` key occurs in the syncable tables.
pub open spec fn syncable_has(rows: Seq<SyncableRow>, table: Seq<char>, id: Seq<char>) -> bool {
    exists|i: int| 0 <= i < rows.len() && rows[i].table_name@ == table && rows[i].id@ == id
}

impl LocalDb {
    /// Well-formedness: each table's key is unique, and queue ids strictly
    /// increase with position and stay below the next id to be assigned.
    pub open spec fn wf(self) -> bool {
        &&& (forall|i: int, j: int| 0 <= i < j < self.watcher_paths@.len()
            ==> self.watcher_paths@[i].repo_full_name@ != self.watcher_paths@[j].repo_full_name@)
        &&& (forall|i: int, j: int| 0 <= i < j < self.preferences@.len()
            ==> self.preferences@[i].key@ != self.preferences@[j].key@)
        &&& (forall|i: int, j: int| 0 <= i < j < self.projects@.len()
            ==> self.projects@[i].repo_full_name@ != self.projects@[j].repo_full_name@)
        &&& (forall|i: int, j: int| 0 <= i < j < self.editor_models@.len()
            ==> self.editor_models@[i].editor_type@ != self.editor_models@[j].editor_type@)
        &&& (forall|i: int, j: int| 0 <= i < j < self.syncables@.len()
            ==> !(self.syncables@[i].table_name@ == self.syncables@[j].table_name@
                && self.syncables@[i].id@ == self.syncables@[j].id@))
        &&& (forall|i: int, j: int| 0 <= i < j < self.sync_queue@.len()
            ==> self.sync_queue@[i].id < self.sync_queue@[j].id)
        &&& (forall|i: int| 0 <= i < self.sync_queue@.len()
            ==> self.sync_queue@[i].id < self.next_queue_id)
        &&& 1 <= self.next_queue_id
    }

    /// The version ledger after a migration pass: versions 1 and 2 are
    /// appended when absent.
    pub open spec fn migrated_versions(v: Seq<u64>) -> Seq<u64> {
        let v1 = if v.contains(1u64) {
            v
        } else {
            v.push(1u64)
        };
        if v1.contains(2u64) {
            v1
        } else {
            v1.push(2u64)
        }
    }

    /// Everything except the version ledger is unchanged.
    pub open spec fn same_tables(pre: LocalDb, post: LocalDb) -> bool {
        &&& post.watcher_paths == pre.watcher_paths
        &&& post.preferences == pre.preferences
        &&& post.projects == pre.projects
        &&& post.editor_models == pre.editor_models
        &&& post.syncables == pre.syncables
        &&& post.sync_queue == pre.sync_queue
        &&& post.next_queue_id == pre.next_queue_id
    }

    /// A fresh store with both schema versions applied and no rows.
    pub fn open() -> (r: Self)
        ensures
            r.wf(),
            r.schema_versions@ == seq![1u64, 2u64],
            r.watcher_paths@.len() == 0,
            r.preferences@.len() == 0,
            r.projects@.len() == 0,
            r.editor_models@.len() == 0,
            r.syncables@.len() == 0,
            r.sync_queue@.len() == 0,
            r.next_queue_id == 1,
    {
        let mut db = LocalDb {
            schema_versions: Vec::new(),
            watcher_paths: Vec::new(),
            preferences: Vec::new(),
            projects: Vec::new(),
            editor_models: Vec::new(),
            syncables: Vec::new(),
            sync_queue: Vec::new(),
            next_queue_id: 1,
        };
        db.migrate();
        proof {
            assert(db.schema_versions@ =~= seq![1u64, 2u64]);
        }
        db
    }

    /// Apply every missing schema version, appending it to the ledger.
    /// Applying the pass to an already-migrated ledger changes nothing.
    pub fn migrate(&mut self)
        ensures
            final(self).schema_versions@ == Self::migrated_versions(old(self).schema_versions@),
            Self::same_tables(*old(self), *final(self)),
            old(self).wf() ==> final(self).wf(),
    {
        if !self.has_version(1) {
            self.schema_versions.push(1);
        }
        if !self.has_version(2) {
            self.schema_versions.push(2);
        }
    }

    /// Whether a version is already recorded in the ledger.
    #[verifier::loop_isolation(false)]
    fn has_version(&self, v: u64) -> (r: bool)
        ensures
            r == self.schema_versions@.contains(v),
    {
        let n = self.schema_versions.len();
        let mut i: usize = 0;
        while i < n
            invariant
                i <= n,
                n == self.schema_versions@.len(),
                forall|j: int| 0 <= j < i ==> self.schema_versions@[j] != v,
            decreases n - i,
        {
            if self.schema_versions[i] == v {
                return true;
            }
            i += 1;
        }
        false
    }

    /// Insert a watcher path, or update the stored path when the repository
    /// is already present (its `watching` flag is preserved).
    #[verifier::loop_isolation(false)]
    pub fn upsert_watcher_path(&mut self, repo_full_name: &str, local_path: &str)
        requires
            old(self).wf(),
        ensures
            final(self).wf(),
            wp_has(old(self).watcher_paths@, repo_full_name@) ==> {
                &&& final(self).watcher_paths@.len() == old(self).watcher_paths@.len()
                &&& forall|i: int| 0 <= i < old(self).watcher_paths@.len()
                    ==> #[trigger] wp_upserted_row(
                        old(self).watcher_paths@[i],
                        final(self).watcher_paths@[i],
                        repo_full_name@,
                        local_path@,
                    )
            },
            !wp_has(old(self).watcher_paths@, repo_full_name@) ==> {
                &&& final(self).watcher_paths@.len() == old(self).watcher_paths@.len() + 1
                &&& forall|i: int| 0 <= i < old(self).watcher_paths@.len()
                    ==> final(self).watcher_paths@[i] == old(self).watcher_paths@[i]
                &&& final(self).watcher_paths@.last().repo_full_name@ == repo_full_name@
                &&& final(self).watcher_paths@.last().local_path@ == local_path@
                &&& final(self).watcher_paths@.last().watching
            },
            final(self).schema_versions == old(self).schema_versions,
            final(self).preferences == old(self).preferences,
            final(self).projects == old(self).projects,
            final(self).editor_models == old(self).editor_models,
            final(self).syncables == old(self).syncables,
            final(self).sync_queue == old(self).sync_queue,
            final(self).next_queue_id == old(self).next_queue_id,
    {
        let n = self.watcher_paths.len();
        let mut i: usize = 0;
        while i < n
            invariant
                i <= n,
                n == self.watcher_paths@.len(),
                *self == *old(self),
                forall|j: int| 0 <= j < i
                    ==> self.watcher_paths@[j].repo_full_name@ != repo_full_name@,
            decreases n - i,
        {
            if strutil::str_eq(self.watcher_paths[i].repo_full_name.as_str(), repo_full_name) {
                let row = WatcherPathRow {
                    repo_full_name: self.watcher_paths[i].repo_full_name.clone(),
                    local_path: local_path.to_owned(),
                    watching: self.watcher_paths[i].watching,
                };
                self.watcher_paths.set(i, row);
                proof {
                    let rows0 = old(self).watcher_paths@;
                    let rows1 = self.watcher_paths@;
                    assert(wp_has(rows0, repo_full_name@));
                    assert forall|k: int| 0 <= k < rows0.len() implies #[trigger] wp_upserted_row(
                        rows0[k],
                        rows1[k],
                        repo_full_name@,
                        local_path@,
                    ) by {
                        if k != i {
                            assert(rows0[k].repo_full_name@ != repo_full_name@);
                        }
                    };
                    assert forall|a: int, b: int| 0 <= a < b < rows1.len()
                        implies rows1[a].repo_full_name@ != rows1[b].repo_full_name@ by {
                        assert(rows0[a].repo_full_name@ != rows0[b].repo_full_name@);
                        assert(rows1[a].repo_full_name@ == rows0[a].repo_full_name@);
                        assert(rows1[b].repo_full_name@ == rows0[b].repo_full_name@);
                    };
                }
                return ;
            }
            i += 1;
        }
        self.watcher_paths.push(
            WatcherPathRow {
                repo_full_name: repo_full_name.to_owned(),
                local_path: local_path.to_owned(),
                watching: true,
            },
        );
        proof {
            let rows0 = old(self).watcher_paths@;
            let rows1 = self.watcher_paths@;
            assert(!wp_has(rows0, repo_full_name@));
            assert forall|a: int, b: int| 0 <= a < b < rows1.len()
                implies rows1[a].repo_full_name@ != rows1[b].repo_full_name@ by {
                if b < rows0.len() {
                    assert(rows0[a].repo_full_name@ != rows0[b].repo_full_name@);
                } else {
                    assert(rows1[b].repo_full_name@ == repo_full_name@);
                    assert(rows0[a].repo_full_name@ != repo_full_name@);
                }
            };
        }
    }

    /// Delete the watcher path stored for a repository, if any; the other
    /// rows survive in order.
    #[verifier::loop_isolation(false)]
    pub fn delete_watcher_path(&mut self, repo_full_name: &str)
        requires
            old(self).wf(),
        ensures
            final(self).wf(),
            final(self).watcher_paths@ == wp_deleted(old(self).watcher_paths@, repo_full_name@),
            !wp_has(final(self).watcher_paths@, repo_full_name@),
            forall|i: int| 0 <= i < final(self).watcher_paths@.len()
                ==> old(self).watcher_paths@.contains(#[trigger] final(self).watcher_paths@[i]),
            forall|i: int| 0 <= i < old(self).watcher_paths@.len()
                && old(self).watcher_paths@[i].repo_full_name@ != repo_full_name@
                ==> final(self).watcher_paths@.contains(#[trigger] old(self).watcher_paths@[i]),
            final(self).schema_versions == old(self).schema_versions,
            final(self).preferences == old(self).preferences,
            final(self).projects == old(self).projects,
            final(self).editor_models == old(self).editor_models,
            final(self).syncables == old(self).syncables,
            final(self).sync_queue == old(self).sync_queue,
            final(self).next_queue_id == old(self).next_queue_id,
    {
        let n = self.watcher_paths.len();
        let mut kept: Vec<WatcherPathRow> = Vec::new();
        let mut i: usize = 0;
        while i < n
            invariant
                i <= n,
                n == self.watcher_paths@.len(),
                old(self).watcher_paths == self.watcher_paths,
                kept@ == wp_deleted(self.watcher_paths@.take(i as int), repo_full_name@),
            decreases n - i,
        {
            let keep = !strutil::str_eq(
                self.watcher_paths[i].repo_full_name.as_str(),
                repo_full_name,
            );
            if keep {
                let row = WatcherPathRow {
                    repo_full_name: self.watcher_paths[i].repo_full_name.clone(),
                    local_path: self.watcher_paths[i].local_path.clone(),
                    watching: self.watcher_paths[i].watching,
                };
                kept.push(row);
            }
            proof {
                assert(self.watcher_paths@.take(i + 1).drop_last() =~= self.watcher_paths@.take(
                    i as int,
                ));
                assert(self.watcher_paths@.take(i + 1).last() == self.watcher_paths@[i as int]);
            }
            i += 1;
        }
        proof {
            assert(self.watcher_paths@.take(n as int) =~= self.watcher_paths@);
            lemma_wp_deleted_props(self.watcher_paths@, repo_full_name@);
        }
        self.watcher_paths = kept;
    }

    /// All watcher paths whose `watching` flag is set, as
    /// `(repo_full_name, local_path)` pairs in table order.
    #[verifier::loop_isolation(false)]
    pub fn get_all_watcher_paths(&self) -> (r: Vec<(String, String)>)
        ensures
            r.deep_view() == wp_watching_views(self.watcher_paths@),
    {
        let n = self.watcher_paths.len();
        let mut out: Vec<(String, String)> = Vec::new();
        let mut i: usize = 0;
        while i < n
            invariant
                i <= n,
                n == self.watcher_paths@.len(),
                out.deep_view() == wp_watching_views(self.watcher_paths@.take(i as int)),
            decreases n - i,
        {
            if self.watcher_paths[i].watching {
                out.push(
                    (
                        self.watcher_paths[i].repo_full_name.clone(),
                        self.watcher_paths[i].local_path.clone(),
                    ),
                );
            }
            proof {
                assert(self.watcher_paths@.take(i + 1).drop_last() =~= self.watcher_paths@.take(
                    i as int,
                ));
                assert(out.deep_view() =~= wp_watching_views(
                    self.watcher_paths@.take(i + 1),
                ));
            }
            i += 1;
        }
        proof {
            assert(self.watcher_paths@.take(n as int) =~= self.watcher_paths@);
        }
        out
    }

    /// Store a preference value, overwriting any previous value of the key.
    #[verifier::loop_isolation(false)]
    pub fn set_preference(&mut self, key: &str, value: &str)
        requires
            old(self).wf(),
        ensures
            final(self).wf(),
            pref_has(old(self).preferences@, key@) ==> {
                &&& final(self).preferences@.len() == old(self).preferences@.len()
                &&& forall|i: int| 0 <= i < old(self).preferences@.len()
                    ==> #[trigger] pref_set_row(
                        old(self).preferences@[i],
                        final(self).preferences@[i],
                        key@,
                        value@,
                    )
            },
            !pref_has(old(self).preferences@, key@) ==> {
                &&& final(self).preferences@.len() == old(self).preferences@.len() + 1
                &&& forall|i: int| 0 <= i < old(self).preferences@.len()
                    ==> final(self).preferences@[i] == old(self).preferences@[i]
                &&& final(self).preferences@.last().key@ == key@
                &&& final(self).preferences@.last().value@ == value@
            },
            final(self).schema_versions == old(self).schema_versions,
            final(self).watcher_paths == old(self).watcher_paths,
            final(self).projects == old(self).projects,
            final(self).editor_models == old(self).editor_models,
            final(self).syncables == old(self).syncables,
            final(self).sync_queue == old(self).sync_queue,
            final(self).next_queue_id == old(self).next_queue_id,
    {
        let n = self.preferences.len();
        let mut i: usize = 0;
        while i < n
            invariant
                i <= n,
                n == self.preferences@.len(),
                *self == *old(self),
                forall|j: int| 0 <= j < i ==> self.preferences@[j].key@ != key@,
            decreases n - i,
        {
            if strutil::str_eq(self.preferences[i].key.as_str(), key) {
                let row = PreferenceRow {
                    key: self.preferences[i].key.clone(),
                    value: value.to_owned(),
                };
                self.preferences.set(i, row);
                proof {
                    let rows0 = old(self).preferences@;
                    let rows1 = self.preferences@;
                    assert(pref_has(rows0, key@));
                    assert forall|k: int| 0 <= k < rows0.len() implies #[trigger] pref_set_row(
                        rows0[k],
                        rows1[k],
                        key@,
                        value@,
                    ) by {
                        if k != i {
                            assert(rows0[k].key@ != key@);
                        }
                    };
                    assert forall|a: int, b: int| 0 <= a < b < rows1.len()
                        implies rows1[a].key@ != rows1[b].key@ by {
                        assert(rows0[a].key@ != rows0[b].key@);
                        assert(rows1[a].key@ == rows0[a].key@);
                        assert(rows1[b].key@ == rows0[b].key@);
                    };
                }
                return ;
            }
            i += 1;
        }
        self.preferences.push(PreferenceRow { key: key.to_owned(), value: value.to_owned() });
        proof {
            let rows0 = old(self).preferences@;
            let rows1 = self.preferences@;
            assert(!pref_has(rows0, key@));
            assert forall|a: int, b: int| 0 <= a < b < rows1.len() implies rows1[a].key@
                != rows1[b].key@ by {
                if b < rows0.len() {
                    assert(rows0[a].key@ != rows0[b].key@);
                } else {
                    assert(rows1[b].key@ == key@);
                    assert(rows0[a].key@ != key@);
                }
            };
        }
    }

    /// Look up a preference value; `None` when the key is absent.
    #[verifier::loop_isolation(false)]
    pub fn get_preference(&self, key: &str) -> (r: Option<String>)
        requires
            self.wf(),
        ensures
            match r {
                Some(v) => exists|i: int| 0 <= i < self.preferences@.len()
                    && self.preferences@[i].key@ == key@ && self.preferences@[i].value@ == v@,
                None => !pref_has(self.preferences@, key@),
            },
    {
        let n = self.preferences.len();
        let mut i: usize = 0;
        while i < n
            invariant
                i <= n,
                n == self.preferences@.len(),
                forall|j: int| 0 <= j < i ==> self.preferences@[j].key@ != key@,
            decreases n - i,
        {
            if strutil::str_eq(self.preferences[i].key.as_str(), key) {
                return Some(self.preferences[i].value.clone());
            }
            i += 1;
        }
        None
    }
}

/// The syncable entity tables that `upsert_syncable` accepts.
pub open spec fn syncable_table_allowed(t: Seq<char>) -> bool {
    ||| t == "work_items"@
    ||| t == "plans"@
    ||| t == "goals"@
    ||| t == "session_logs"@
}

/// The error cases of the store.
#[derive(Debug, Clone, Copy, PartialEq, Eq, Structural)]
pub enum DbError {
    /// The named table is not one of the syncable entity tables.
    TableNotAllowed,
}

impl DbError {
    /// A readable description of the error.
    pub fn describe(&self) -> (r: &'static str)
        ensures
            r@ == "table is not one of the syncable tables"@,
    {
        "table is not one of the syncable tables"
    }
}

/// A record handed to `upsert_syncable`: the fields the store reads out of
/// the record, and the record's full JSON text.
#[derive(Debug, Clone)]
pub struct SyncableRecord {
    pub id: Option<String>,
    pub title: Option<String>,
    pub status: Option<String>,
    pub plan_type: Option<String>,
    pub priority: Option<String>,
    pub description: Option<String>,
    pub due_at: Option<String>,
    pub json: String,
}

/// A provided field, or its default.
pub open spec fn provided_or(v: Option<String>, default: Seq<char>) -> Seq<char> {
    match v {
        Some(s) => s@,
        None => default,
    }
}

/// An optional column after an update: the provided value when present,
/// the stored one otherwise.
pub open spec fn opt_updated(pre: Option<String>, new: Option<String>) -> Option<String> {
    match new {
        Some(s) => Some(s),
        None => pre,
    }
}

/// How one syncable row is affected by an upsert keyed `(table, id)`: the
/// keyed row takes the record's fields (optional columns only when
/// provided), its metadata becomes the record text and its sync status
/// returns to pending; every other row is untouched.
pub open spec fn syncable_upserted_row(
    pre: SyncableRow,
    post: SyncableRow,
    table: Seq<char>,
    id: Seq<char>,
    rec: SyncableRecord,
) -> bool {
    if pre.table_name@ == table && pre.id@ == id {
        &&& post.table_name@ == pre.table_name@
        &&& post.id@ == pre.id@
        &&& post.title@ == provided_or(rec.title, "Untitled"@)
        &&& post.status@ == provided_or(rec.status, "open"@)
        &&& post.metadata@ == rec.json@
        &&& post.sync_status@ == "pending"@
        &&& post.plan_type == opt_updated(pre.plan_type, rec.plan_type)
        &&& post.priority == opt_updated(pre.priority, rec.priority)
        &&& post.description == opt_updated(pre.description, rec.description)
        &&& post.due_at == opt_updated(pre.due_at, rec.due_at)
    } else {
        post == pre
    }
}

/// The queue row appended for an upsert or enqueue.
pub open spec fn queue_row_spec(
    id: i64,
    table: Seq<char>,
    record_id: Seq<char>,
    operation: Seq<char>,
    payload: Seq<char>,
) -> SyncQueueRowV {
    SyncQueueRowV {
        id: id,
        table_name: table,
        record_id: record_id,
        operation: operation,
        payload: payload,
        synced: false,
    }
}

/// One queue row after `mark_synced(ids)`: the synced flag is raised when
/// the row's id is named, and nothing else changes.
pub open spec fn marked_row(r: SyncQueueRowV, ids: Seq<i64>) -> SyncQueueRowV {
    if ids.contains(r.id) {
        SyncQueueRowV {
            id: r.id,
            table_name: r.table_name,
            record_id: r.record_id,
            operation: r.operation,
            payload: r.payload,
            synced: true,
        }
    } else {
        r
    }
}

/// The queue after `mark_synced(ids)`.
pub open spec fn marked_queue(q: Seq<SyncQueueRowV>, ids: Seq<i64>) -> Seq<SyncQueueRowV> {
    q.map_values(|r: SyncQueueRowV| marked_row(r, ids))
}

/// The rows of the queue not yet synced, oldest first.
pub open spec fn pending_rows(q: Seq<SyncQueueRowV>) -> Seq<SyncQueueRowV>
    decreases q.len(),
{
    if q.len() == 0 {
        Seq::empty()
    } else {
        let rest = pending_rows(q.drop_last());
        if !q.last().synced {
            rest.push(q.last())
        } else {
            rest
        }
    }
}

impl SyncQueueRow {
    /// A field-for-field copy of the row.
    pub fn duplicate(&self) -> (r: Self)
        ensures
            r == *self,
    {
        SyncQueueRow {
            id: self.id,
            table_name: self.table_name.clone(),
            record_id: self.record_id.clone(),
            operation: self.operation.clone(),
            payload: self.payload.clone(),
            synced: self.synced,
        }
    }
}

impl LocalDb {
    /// Append one row to the sync queue, with the next id and the synced
    /// flag clear.
    pub fn enqueue_sync(&mut self, table_name: &str, record_id: &str, operation: &str, payload: &str)
        requires
            old(self).wf(),
            old(self).next_queue_id < i64::MAX,
        ensures
            final(self).wf(),
            final(self).sync_queue.deep_view() == old(self).sync_queue.deep_view().push(
                queue_row_spec(
                    old(self).next_queue_id,
                    table_name@,
                    record_id@,
                    operation@,
                    payload@,
                ),
            ),
            final(self).next_queue_id == old(self).next_queue_id + 1,
            final(self).schema_versions == old(self).schema_versions,
            final(self).watcher_paths == old(self).watcher_paths,
            final(self).preferences == old(self).preferences,
            final(self).projects == old(self).projects,
            final(self).editor_models == old(self).editor_models,
            final(self).syncables == old(self).syncables,
    {
        let row = SyncQueueRow {
            id: self.next_queue_id,
            table_name: table_name.to_owned(),
            record_id: record_id.to_owned(),
            operation: operation.to_owned(),
            payload: payload.to_owned(),
            synced: false,
        };
        self.sync_queue.push(row);
        self.next_queue_id = self.next_queue_id + 1;
        proof {
            assert(self.sync_queue.deep_view() =~= old(self).sync_queue.deep_view().push(
                queue_row_spec(
                    old(self).next_queue_id,
                    table_name@,
                    record_id@,
                    operation@,
                    payload@,
                ),
            ));
        }
    }

    /// The oldest rows not yet synced, in queue order, at most 50 of them.
    #[verifier::loop_isolation(false)]
    pub fn get_pending_sync(&self) -> (r: Vec<SyncQueueRow>)
        ensures
            ({
                let p = pending_rows(self.sync_queue.deep_view());
                if p.len() <= 50 {
                    r.deep_view() == p
                } else {
                    r.deep_view() == p.take(50)
                }
            }),
    {
        let n = self.sync_queue.len();
        let mut all: Vec<SyncQueueRow> = Vec::new();
        let mut i: usize = 0;
        while i < n
            invariant
                i <= n,
                n == self.sync_queue@.len(),
                all.deep_view() == pending_rows(self.sync_queue.deep_view().take(i as int)),
            decreases n - i,
        {
            if !self.sync_queue[i].synced {
                all.push(self.sync_queue[i].duplicate());
            }
            proof {
                assert(self.sync_queue.deep_view().take(i + 1).drop_last()
                    =~= self.sync_queue.deep_view().take(i as int));
                assert(self.sync_queue.deep_view().take(i + 1).last()
                    == self.sync_queue@[i as int].deep_view());
                assert(all.deep_view() =~= pending_rows(
                    self.sync_queue.deep_view().take(i + 1),
                ));
            }
            i += 1;
        }
        proof {
            assert(self.sync_queue.deep_view().take(n as int) =~= self.sync_queue.deep_view());
        }
        let total = all.len();
        let mut out: Vec<SyncQueueRow> = Vec::new();
        let mut j: usize = 0;
        while j < total && j < 50
            invariant
                j <= total,
                j <= 50,
                total == all@.len(),
                out@ == all@.take(j as int),
            decreases total - j,
        {
            out.push(all[j].duplicate());
            proof {
                assert(out@ =~= all@.take(j + 1));
            }
            j += 1;
        }
        proof {
            let p = pending_rows(self.sync_queue.deep_view());
            if total <= 50 {
                assert(out@ =~= all@);
                assert(out.deep_view() =~= all.deep_view());
            } else {
                assert(out@ =~= all@.take(50));
                assert(out.deep_view() =~= all.deep_view().take(50));
            }
        }
        out
    }

    /// Raise the synced flag of every named row; rows already synced or not
    /// named are untouched. Marking is idempotent.
    #[verifier::loop_isolation(false)]
    pub fn mark_synced(&mut self, queue_ids: &Vec<i64>)
        requires
            old(self).wf(),
        ensures
            final(self).wf(),
            final(self).sync_queue.deep_view() == marked_queue(
                old(self).sync_queue.deep_view(),
                queue_ids@,
            ),
            final(self).schema_versions == old(self).schema_versions,
            final(self).watcher_paths == old(self).watcher_paths,
            final(self).preferences == old(self).preferences,
            final(self).projects == old(self).projects,
            final(self).editor_models == old(self).editor_models,
            final(self).syncables == old(self).syncables,
            final(self).next_queue_id == old(self).next_queue_id,
    {
        let n = self.sync_queue.len();
        let mut i: usize = 0;
        while i < n
            invariant
                i <= n,
                n == self.sync_queue@.len(),
                self.sync_queue@.len() == old(self).sync_queue@.len(),
                forall|k: int| 0 <= k < i ==> #[trigger] self.sync_queue@[k].deep_view()
                    == marked_row(old(self).sync_queue@[k].deep_view(), queue_ids@),
                forall|k: int| i <= k < n ==> #[trigger] self.sync_queue@[k]
                    == old(self).sync_queue@[k],
                self.schema_versions == old(self).schema_versions,
                self.watcher_paths == old(self).watcher_paths,
                self.preferences == old(self).preferences,
                self.projects == old(self).projects,
                self.editor_models == old(self).editor_models,
                self.syncables == old(self).syncables,
                self.next_queue_id == old(self).next_queue_id,
            decreases n - i,
        {
            if id_listed(queue_ids, self.sync_queue[i].id) {
                let row = SyncQueueRow {
                    id: self.sync_queue[i].id,
                    table_name: self.sync_queue[i].table_name.clone(),
                    record_id: self.sync_queue[i].record_id.clone(),
                    operation: self.sync_queue[i].operation.clone(),
                    payload: self.sync_queue[i].payload.clone(),
                    synced: true,
                };
                self.sync_queue.set(i, row);
            }
            i += 1;
        }
        proof {
            assert(self.sync_queue.deep_view() =~= marked_queue(
                old(self).sync_queue.deep_view(),
                queue_ids@,
            ));
            assert forall|a: int, b: int| 0 <= a < b < self.sync_queue@.len()
                implies self.sync_queue@[a].id < self.sync_queue@[b].id by {
                assert(old(self).sync_queue@[a].id < old(self).sync_queue@[b].id);
                assert(self.sync_queue@[a].deep_view()
                    == marked_row(old(self).sync_queue@[a].deep_view(), queue_ids@));
                assert(self.sync_queue@[b].deep_view()
                    == marked_row(old(self).sync_queue@[b].deep_view(), queue_ids@));
            };
            assert forall|a: int| 0 <= a < self.sync_queue@.len()
                implies self.sync_queue@[a].id < self.next_queue_id by {
                assert(old(self).sync_queue@[a].id < old(self).next_queue_id);
                assert(self.sync_queue@[a].deep_view()
                    == marked_row(old(self).sync_queue@[a].deep_view(), queue_ids@));
            };
        }
    }

    /// Insert or update a record in one of the syncable tables, and append
    /// exactly one row to the sync queue recording the operation. Returns
    /// the record id used. The table must be one of the syncable tables.
    #[verifier::loop_isolation(false)]
    pub fn upsert_syncable(&mut self, table_name: &str, record: &SyncableRecord) -> (r: Result<
        String,
        DbError,
    >)
        requires
            old(self).wf(),
            old(self).next_queue_id < i64::MAX,
        ensures
            final(self).wf(),
            r is Ok <==> syncable_table_allowed(table_name@),
            r is Err ==> *final(self) == *old(self),
            r matches Ok(id) ==> {
                let existed = syncable_has(old(self).syncables@, table_name@, id@);
                &&& (record.id matches Some(s) ==> id@ == s@)
                &&& (record.id is None ==> id@.len() == 36)
                &&& existed ==> {
                    &&& final(self).syncables@.len() == old(self).syncables@.len()
                    &&& forall|k: int| 0 <= k < old(self).syncables@.len()
                        ==> #[trigger] syncable_upserted_row(
                            old(self).syncables@[k],
                            final(self).syncables@[k],
                            table_name@,
                            id@,
                            *record,
                        )
                }
                &&& !existed ==> {
                    &&& final(self).syncables@.len() == old(self).syncables@.len() + 1
                    &&& forall|k: int| 0 <= k < old(self).syncables@.len()
                        ==> final(self).syncables@[k] == old(self).syncables@[k]
                    &&& final(self).syncables@.last().table_name@ == table_name@
                    &&& final(self).syncables@.last().id@ == id@
                    &&& final(self).syncables@.last().title@ == provided_or(
                        record.title,
                        "Untitled"@,
                    )
                    &&& final(self).syncables@.last().status@ == provided_or(
                        record.status,
                        "open"@,
                    )
                    &&& final(self).syncables@.last().metadata@ == record.json@
                    &&& final(self).syncables@.last().sync_status@ == "pending"@
                    &&& final(self).syncables@.last().plan_type is None
                    &&& final(self).syncables@.last().priority is None
                    &&& final(self).syncables@.last().description is None
                    &&& final(self).syncables@.last().due_at is None
                }
                &&& final(self).sync_queue.deep_view() == old(self).sync_queue.deep_view().push(
                    queue_row_spec(
                        old(self).next_queue_id,
                        table_name@,
                        id@,
                        if existed {
                            "update"@
                        } else {
                            "insert"@
                        },
                        record.json@,
                    ),
                )
                &&& final(self).next_queue_id == old(self).next_queue_id + 1
                &&& final(self).schema_versions == old(self).schema_versions
                &&& final(self).watcher_paths == old(self).watcher_paths
                &&& final(self).preferences == old(self).preferences
                &&& final(self).projects == old(self).projects
                &&& final(self).editor_models == old(self).editor_models
            },
    {
        let allowed = strutil::str_eq(table_name, "work_items") || strutil::str_eq(
            table_name,
            "plans",
        ) || strutil::str_eq(table_name, "goals") || strutil::str_eq(table_name, "session_logs");
        if !allowed {
            return Err(DbError::TableNotAllowed);
        }
        let id: String = match &record.id {
            Some(s) => s.clone(),
            None => crate::ids::new_uuid(),
        };
        let title: String = match &record.title {
            Some(s) => s.clone(),
            None => "Untitled".to_owned(),
        };
        let status: String = match &record.status {
            Some(s) => s.clone(),
            None => "open".to_owned(),
        };
        let n = self.syncables.len();
        let mut found: Option<usize> = None;
        let mut i: usize = 0;
        while i < n
            invariant
                i <= n,
                n == self.syncables@.len(),
                *self == *old(self),
                match found {
                    Some(idx) => idx < i && self.syncables@[idx as int].table_name@ == table_name@
                        && self.syncables@[idx as int].id@ == id@,
                    None => forall|j: int| 0 <= j < i ==> !(self.syncables@[j].table_name@
                        == table_name@ && self.syncables@[j].id@ == id@),
                },
                found is Some ==> i == n,
            decreases n - i,
        {
            if strutil::str_eq(self.syncables[i].table_name.as_str(), table_name) && strutil::str_eq(
                self.syncables[i].id.as_str(),
                id.as_str(),
            ) {
                found = Some(i);
                break ;
            }
            i += 1;
        }
        match found {
            Some(idx) => {
                let pre = &self.syncables[idx];
                let row = SyncableRow {
                    table_name: pre.table_name.clone(),
                    id: pre.id.clone(),
                    title: title,
                    status: status,
                    plan_type: match &record.plan_type {
                        Some(s) => Some(s.clone()),
                        None => pre.plan_type.clone(),
                    },
                    priority: match &record.priority {
                        Some(s) => Some(s.clone()),
                        None => pre.priority.clone(),
                    },
                    description: match &record.description {
                        Some(s) => Some(s.clone()),
                        None => pre.description.clone(),
                    },
                    due_at: match &record.due_at {
                        Some(s) => Some(s.clone()),
                        None => pre.due_at.clone(),
                    },
                    metadata: record.json.clone(),
                    sync_status: "pending".to_owned(),
                };
                self.syncables.set(idx, row);
                proof {
                    let rows0 = old(self).syncables@;
                    let rows1 = self.syncables@;
                    assert(syncable_has(rows0, table_name@, id@));
                    assert forall|k: int| 0 <= k < rows0.len()
                        implies #[trigger] syncable_upserted_row(
                        rows0[k],
                        rows1[k],
                        table_name@,
                        id@,
                        *record,
                    ) by {
                        if k != idx {
                            assert(!(rows0[k].table_name@ == table_name@ && rows0[k].id@ == id@));
                        }
                    };
                    assert forall|a: int, b: int| 0 <= a < b < rows1.len()
                        implies !(rows1[a].table_name@ == rows1[b].table_name@ && rows1[a].id@
                        == rows1[b].id@) by {
                        assert(!(rows0[a].table_name@ == rows0[b].table_name@ && rows0[a].id@
                            == rows0[b].id@));
                        assert(rows1[a].table_name@ == rows0[a].table_name@ && rows1[a].id@
                            == rows0[a].id@);
                        assert(rows1[b].table_name@ == rows0[b].table_name@ && rows1[b].id@
                            == rows0[b].id@);
                    };
                }
                self.enqueue_sync(table_name, id.as_str(), "update", record.json.as_str());
                Ok(id)
            },
            None => {
                let row = SyncableRow {
                    table_name: table_name.to_owned(),
                    id: id.clone(),
                    title: title,
                    status: status,
                    plan_type: None,
                    priority: None,
                    description: None,
                    due_at: None,
                    metadata: record.json.clone(),
                    sync_status: "pending".to_owned(),
                };
                self.syncables.push(row);
                proof {
                    let rows0 = old(self).syncables@;
                    let rows1 = self.syncables@;
                    assert(!syncable_has(rows0, table_name@, id@));
                    assert forall|a: int, b: int| 0 <= a < b < rows1.len()
                        implies !(rows1[a].table_name@ == rows1[b].table_name@ && rows1[a].id@
                        == rows1[b].id@) by {
                        if b < rows0.len() {
                            assert(!(rows0[a].table_name@ == rows0[b].table_name@ && rows0[a].id@
                                == rows0[b].id@));
                        } else {
                            assert(rows1[b].table_name@ == table_name@ && rows1[b].id@ == id@);
                            assert(!(rows0[a].table_name@ == table_name@ && rows0[a].id@ == id@));
                        }
                    };
                }
                self.enqueue_sync(table_name, id.as_str(), "insert", record.json.as_str());
                Ok(id)
            },
        }
    }

    /// The rows of one syncable table, newest insertion first.
    #[verifier::loop_isolation(false)]
    pub fn get_all_syncable(&self, table_name: &str) -> (r: Result<Vec<SyncableRow>, DbError>)
        ensures
            r is Ok <==> syncable_table_allowed(table_name@),
            r matches Ok(rows) ==> rows@ == syncable_rows_rev(self.syncables@, table_name@),
    {
        let allowed = strutil::str_eq(table_name, "work_items") || strutil::str_eq(
            table_name,
            "plans",
        ) || strutil::str_eq(table_name, "goals") || strutil::str_eq(table_name, "session_logs");
        if !allowed {
            return Err(DbError::TableNotAllowed);
        }
        let n = self.syncables.len();
        let mut out: Vec<SyncableRow> = Vec::new();
        let mut i: usize = n;
        while i > 0
            invariant
                i <= n,
                n == self.syncables@.len(),
                out@ == syncable_rows_rev(self.syncables@.skip(i as int), table_name@),
            decreases i,
        {
            i -= 1;
            if strutil::str_eq(self.syncables[i].table_name.as_str(), table_name) {
                let pre = &self.syncables[i];
                out.push(
                    SyncableRow {
                        table_name: pre.table_name.clone(),
                        id: pre.id.clone(),
                        title: pre.title.clone(),
                        status: pre.status.clone(),
                        plan_type: pre.plan_type.clone(),
                        priority: pre.priority.clone(),
                        description: pre.description.clone(),
                        due_at: pre.due_at.clone(),
                        metadata: pre.metadata.clone(),
                        sync_status: pre.sync_status.clone(),
                    },
                );
            }
            proof {
                assert(self.syncables@.skip(i as int).drop_first() =~= self.syncables@.skip(
                    i + 1,
                ));
                assert(self.syncables@.skip(i as int).first() == self.syncables@[i as int]);
                assert(out@ =~= syncable_rows_rev(self.syncables@.skip(i as int), table_name@));
            }
        }
        proof {
            assert(self.syncables@.skip(0) =~= self.syncables@);
        }
        Ok(out)
    }
}

/// The rows of one syncable table in reverse insertion order (the first row
/// of the input ends last in the output).
pub open spec fn syncable_rows_rev(rows: Seq<SyncableRow>, table: Seq<char>) -> Seq<SyncableRow>
    decreases rows.len(),
{
    if rows.len() == 0 {
        Seq::empty()
    } else {
        let rest = syncable_rows_rev(rows.drop_first(), table);
        if rows.first().table_name@ == table {
            rest.push(rows.first())
        } else {
            rest
        }
    }
}

/// Whether an id is named in the list.
fn id_listed(ids: &Vec<i64>, id: i64) -> (r: bool)
    ensures
        r == ids@.contains(id),
{
    let n = ids.len();
    let mut i: usize = 0;
    while i < n
        invariant
            i <= n,
            n == ids@.len(),
            forall|j: int| 0 <= j < i ==> ids@[j] != id,
        decreases n - i,
    {
        if ids[i] == id {
            return true;
        }
        i += 1;
    }
    false
}

/// A record handed to `upsert_project`: the fields the store reads out of
/// the incoming project JSON.
#[derive(Debug, Clone)]
pub struct ProjectRecord {
    pub id: Option<String>,
    pub repo_id: i64,
    pub repo_name: String,
    pub repo_full_name: String,
    pub repo_url: String,
    pub description: Option<String>,
    pub default_branch: Option<String>,
    pub language: Option<String>,
    pub is_private: bool,
    pub status: Option<String>,
    pub metadata_json: String,
}

/// How one project row is affected by an upsert keyed on the record's
/// `repo_full_name`: the keyed row takes the record's mutable fields while
/// keeping its identity fields; every other row is untouched.
pub open spec fn project_upserted_row(pre: ProjectRow, post: ProjectRow, rec: ProjectRecord) -> bool {
    if pre.repo_full_name@ == rec.repo_full_name@ {
        &&& post.id == pre.id
        &&& post.repo_id == pre.repo_id
        &&& post.repo_name == pre.repo_name
        &&& post.repo_full_name == pre.repo_full_name
        &&& post.repo_url == pre.repo_url
        &&& post.description == rec.description
        &&& post.default_branch@ == provided_or(rec.default_branch, "main"@)
        &&& post.language == rec.language
        &&& post.is_private == rec.is_private
        &&& post.status@ == provided_or(rec.status, "active"@)
        &&& post.metadata@ == rec.metadata_json@
    } else {
        post == pre
    }
}

/// The project catalog after deleting a row id: the row with that id is
/// dropped, every other row survives in order.
pub open spec fn proj_deleted(rows: Seq<ProjectRow>, id: Seq<char>) -> Seq<ProjectRow>
    decreases rows.len(),
{
    if rows.len() == 0 {
        Seq::empty()
    } else {
        let rest = proj_deleted(rows.drop_last(), id);
        if rows.last().id@ == id {
            rest
        } else {
            rest.push(rows.last())
        }
    }
}

/// What survives a project deletion: rows of the original catalog, with
/// pairwise-distinct repository keys preserved.
proof fn lemma_proj_deleted_props(rows: Seq<ProjectRow>, id: Seq<char>)
    ensures
        forall|k: int| 0 <= k < proj_deleted(rows, id).len()
            ==> rows.contains(#[trigger] proj_deleted(rows, id)[k]),
        (forall|a: int, b: int| 0 <= a < b < rows.len()
            ==> rows[a].repo_full_name@ != rows[b].repo_full_name@) ==> forall|a: int, b: int|
            0 <= a < b < proj_deleted(rows, id).len() ==> proj_deleted(rows, id)[a].repo_full_name@
                != proj_deleted(rows, id)[b].repo_full_name@,
    decreases rows.len(),
{
    if rows.len() == 0 {
    } else {
        let head = rows.drop_last();
        lemma_proj_deleted_props(head, id);
        let drest = proj_deleted(head, id);
        let dall = proj_deleted(rows, id);
        assert forall|k: int| 0 <= k < dall.len() implies rows.contains(#[trigger] dall[k]) by {
            if k < drest.len() {
                assert(head.contains(drest[k]));
                let j = choose|j: int| 0 <= j < head.len() && head[j] == drest[k];
                assert(rows[j] == drest[k]);
            } else {
                assert(dall[k] == rows.last());
                assert(rows[rows.len() - 1] == rows.last());
            }
        };
        if forall|a: int, b: int| 0 <= a < b < rows.len()
            ==> rows[a].repo_full_name@ != rows[b].repo_full_name@ {
            assert forall|a: int, b: int| 0 <= a < b < dall.len()
                implies dall[a].repo_full_name@ != dall[b].repo_full_name@ by {
                assert(forall|x: int, y: int| 0 <= x < y < head.len()
                    ==> head[x].repo_full_name@ != head[y].repo_full_name@);
                if b >= drest.len() {
                    assert(dall[b] == rows.last());
                    assert(head.contains(drest[a]));
                    let j = choose|j: int| 0 <= j < head.len() && head[j] == drest[a];
                    assert(rows[j].repo_full_name@ != rows[rows.len() - 1].repo_full_name@);
                }
            };
        }
    }
}

/// The project catalog in reverse insertion order.
pub open spec fn proj_rows_rev(rows: Seq<ProjectRow>) -> Seq<ProjectRow>
    decreases rows.len(),
{
    if rows.len() == 0 {
        Seq::empty()
    } else {
        proj_rows_rev(rows.drop_first()).push(rows.first())
    }
}

impl ProjectRow {
    /// A field-for-field copy of the row.
    pub fn duplicate(&self) -> (r: Self)
        ensures
            r == *self,
    {
        ProjectRow {
            id: self.id.clone(),
            repo_id: self.repo_id,
            repo_name: self.repo_name.clone(),
            repo_full_name: self.repo_full_name.clone(),
            repo_url: self.repo_url.clone(),
            description: self.description.clone(),
            default_branch: self.default_branch.clone(),
            language: self.language.clone(),
            is_private: self.is_private,
            status: self.status.clone(),
            metadata: self.metadata.clone(),
        }
    }
}

impl LocalDb {
    /// Insert a project, or update its mutable fields when a row with the
    /// record's `repo_full_name` exists (identity fields are kept).
    #[verifier::loop_isolation(false)]
    pub fn upsert_project(&mut self, rec: &ProjectRecord)
        requires
            old(self).wf(),
        ensures
            final(self).wf(),
            proj_has(old(self).projects@, rec.repo_full_name@) ==> {
                &&& final(self).projects@.len() == old(self).projects@.len()
                &&& forall|k: int| 0 <= k < old(self).projects@.len()
                    ==> #[trigger] project_upserted_row(
                        old(self).projects@[k],
                        final(self).projects@[k],
                        *rec,
                    )
            },
            !proj_has(old(self).projects@, rec.repo_full_name@) ==> {
                &&& final(self).projects@.len() == old(self).projects@.len() + 1
                &&& forall|k: int| 0 <= k < old(self).projects@.len()
                    ==> final(self).projects@[k] == old(self).projects@[k]
                &&& final(self).projects@.last().repo_full_name@ == rec.repo_full_name@
                &&& (rec.id matches Some(s) ==> final(self).projects@.last().id@ == s@)
                &&& (rec.id is None ==> final(self).projects@.last().id@.len() == 36)
                &&& final(self).projects@.last().repo_id == rec.repo_id
                &&& final(self).projects@.last().repo_name@ == rec.repo_name@
                &&& final(self).projects@.last().repo_url@ == rec.repo_url@
                &&& final(self).projects@.last().description == rec.description
                &&& final(self).projects@.last().default_branch@ == provided_or(
                    rec.default_branch,
                    "main"@,
                )
                &&& final(self).projects@.last().language == rec.language
                &&& final(self).projects@.last().is_private == rec.is_private
                &&& final(self).projects@.last().status@ == provided_or(rec.status, "active"@)
                &&& final(self).projects@.last().metadata@ == rec.metadata_json@
            },
            final(self).schema_versions == old(self).schema_versions,
            final(self).watcher_paths == old(self).watcher_paths,
            final(self).preferences == old(self).preferences,
            final(self).editor_models == old(self).editor_models,
            final(self).syncables == old(self).syncables,
            final(self).sync_queue == old(self).sync_queue,
            final(self).next_queue_id == old(self).next_queue_id,
    {
        let default_branch: String = match &rec.default_branch {
            Some(s) => s.clone(),
            None => "main".to_owned(),
        };
        let status: String = match &rec.status {
            Some(s) => s.clone(),
            None => "active".to_owned(),
        };
        let n = self.projects.len();
        let mut i: usize = 0;
        while i < n
            invariant
                i <= n,
                n == self.projects@.len(),
                *self == *old(self),
                forall|j: int| 0 <= j < i
                    ==> self.projects@[j].repo_full_name@ != rec.repo_full_name@,
            decreases n - i,
        {
            if strutil::str_eq(
                self.projects[i].repo_full_name.as_str(),
                rec.repo_full_name.as_str(),
            ) {
                let pre = &self.projects[i];
                let row = ProjectRow {
                    id: pre.id.clone(),
                    repo_id: pre.repo_id,
                    repo_name: pre.repo_name.clone(),
                    repo_full_name: pre.repo_full_name.clone(),
                    repo_url: pre.repo_url.clone(),
                    description: rec.description.clone(),
                    default_branch: default_branch,
                    language: rec.language.clone(),
                    is_private: rec.is_private,
                    status: status,
                    metadata: rec.metadata_json.clone(),
                };
                self.projects.set(i, row);
                proof {
                    let rows0 = old(self).projects@;
                    let rows1 = self.projects@;
                    assert(proj_has(rows0, rec.repo_full_name@));
                    assert forall|k: int| 0 <= k < rows0.len()
                        implies #[trigger] project_upserted_row(rows0[k], rows1[k], *rec) by {
                        if k != i {
                            assert(rows0[k].repo_full_name@ != rec.repo_full_name@);
                        }
                    };
                    assert forall|a: int, b: int| 0 <= a < b < rows1.len()
                        implies rows1[a].repo_full_name@ != rows1[b].repo_full_name@ by {
                        assert(rows0[a].repo_full_name@ != rows0[b].repo_full_name@);
                        assert(rows1[a].repo_full_name@ == rows0[a].repo_full_name@);
                        assert(rows1[b].repo_full_name@ == rows0[b].repo_full_name@);
                    };
                }
                return ;
            }
            i += 1;
        }
        let id: String = match &rec.id {
            Some(s) => s.clone(),
            None => crate::ids::new_uuid(),
        };
        self.projects.push(
            ProjectRow {
                id: id,
                repo_id: rec.repo_id,
                repo_name: rec.repo_name.clone(),
                repo_full_name: rec.repo_full_name.clone(),
                repo_url: rec.repo_url.clone(),
                description: rec.description.clone(),
                default_branch: default_branch,
                language: rec.language.clone(),
                is_private: rec.is_private,
                status: status,
                metadata: rec.metadata_json.clone(),
            },
        );
        proof {
            let rows0 = old(self).projects@;
            let rows1 = self.projects@;
            assert(!proj_has(rows0, rec.repo_full_name@));
            assert forall|a: int, b: int| 0 <= a < b < rows1.len()
                implies rows1[a].repo_full_name@ != rows1[b].repo_full_name@ by {
                if b < rows0.len() {
                    assert(rows0[a].repo_full_name@ != rows0[b].repo_full_name@);
                } else {
                    assert(rows1[b].repo_full_name@ == rec.repo_full_name@);
                    assert(rows0[a].repo_full_name@ != rec.repo_full_name@);
                }
            };
        }
    }

    /// Delete the project row with the given id, if any; the other rows
    /// survive in order.
    #[verifier::loop_isolation(false)]
    pub fn delete_project(&mut self, id: &str)
        requires
            old(self).wf(),
        ensures
            final(self).wf(),
            final(self).projects@ == proj_deleted(old(self).projects@, id@),
            final(self).schema_versions == old(self).schema_versions,
            final(self).watcher_paths == old(self).watcher_paths,
            final(self).preferences == old(self).preferences,
            final(self).editor_models == old(self).editor_models,
            final(self).syncables == old(self).syncables,
            final(self).sync_queue == old(self).sync_queue,
            final(self).next_queue_id == old(self).next_queue_id,
    {
        let n = self.projects.len();
        let mut kept: Vec<ProjectRow> = Vec::new();
        let mut i: usize = 0;
        while i < n
            invariant
                i <= n,
                n == self.projects@.len(),
                *self == *old(self),
                kept@ == proj_deleted(self.projects@.take(i as int), id@),
            decreases n - i,
        {
            if !strutil::str_eq(self.projects[i].id.as_str(), id) {
                kept.push(self.projects[i].duplicate());
            }
            proof {
                assert(self.projects@.take(i + 1).drop_last() =~= self.projects@.take(i as int));
                assert(self.projects@.take(i + 1).last() == self.projects@[i as int]);
            }
            i += 1;
        }
        proof {
            assert(self.projects@.take(n as int) =~= self.projects@);
            lemma_proj_deleted_props(self.projects@, id@);
        }
        self.projects = kept;
    }

    /// All project rows, newest insertion first.
    #[verifier::loop_isolation(false)]
    pub fn get_all_projects(&self) -> (r: Vec<ProjectRow>)
        ensures
            r@ == proj_rows_rev(self.projects@),
    {
        let n = self.projects.len();
        let mut out: Vec<ProjectRow> = Vec::new();
        let mut i: usize = n;
        while i > 0
            invariant
                i <= n,
                n == self.projects@.len(),
                out@ == proj_rows_rev(self.projects@.skip(i as int)),
            decreases i,
        {
            i -= 1;
            out.push(self.projects[i].duplicate());
            proof {
                assert(self.projects@.skip(i as int).drop_first() =~= self.projects@.skip(i + 1));
                assert(self.projects@.skip(i as int).first() == self.projects@[i as int]);
                assert(out@ =~= proj_rows_rev(self.projects@.skip(i as int)));
            }
        }
        proof {
            assert(self.projects@.skip(0) =~= self.projects@);
        }
        out
    }

    /// Store the supported models for an editor, overwriting any previous
    /// list for the same editor type.
    #[verifier::loop_isolation(false)]
    pub fn upsert_editor_models(&mut self, editor_type: &str, supported_models: &Vec<String>)
        requires
            old(self).wf(),
        ensures
            final(self).wf(),
            em_has(old(self).editor_models@, editor_type@) ==> {
                &&& final(self).editor_models@.len() == old(self).editor_models@.len()
                &&& forall|k: int| 0 <= k < old(self).editor_models@.len()
                    ==> #[trigger] em_upserted_row(
                        old(self).editor_models@[k],
                        final(self).editor_models@[k],
                        editor_type@,
                        supported_models@,
                    )
            },
            !em_has(old(self).editor_models@, editor_type@) ==> {
                &&& final(self).editor_models@.len() == old(self).editor_models@.len() + 1
                &&& forall|k: int| 0 <= k < old(self).editor_models@.len()
                    ==> final(self).editor_models@[k] == old(self).editor_models@[k]
                &&& final(self).editor_models@.last().editor_type@ == editor_type@
                &&& final(self).editor_models@.last().supported_models@ == supported_models@
            },
            final(self).schema_versions == old(self).schema_versions,
            final(self).watcher_paths == old(self).watcher_paths,
            final(self).preferences == old(self).preferences,
            final(self).projects == old(self).projects,
            final(self).syncables == old(self).syncables,
            final(self).sync_queue == old(self).sync_queue,
            final(self).next_queue_id == old(self).next_queue_id,
    {
        let models = clone_string_vec(supported_models);
        let n = self.editor_models.len();
        let mut i: usize = 0;
        while i < n
            invariant
                i <= n,
                n == self.editor_models@.len(),
                *self == *old(self),
                models@ == supported_models@,
                forall|j: int| 0 <= j < i ==> self.editor_models@[j].editor_type@ != editor_type@,
            decreases n - i,
        {
            if strutil::str_eq(self.editor_models[i].editor_type.as_str(), editor_type) {
                let row = EditorModelsRow {
                    editor_type: self.editor_models[i].editor_type.clone(),
                    supported_models: models,
                };
                self.editor_models.set(i, row);
                proof {
                    let rows0 = old(self).editor_models@;
                    let rows1 = self.editor_models@;
                    assert(em_has(rows0, editor_type@));
                    assert forall|k: int| 0 <= k < rows0.len() implies #[trigger] em_upserted_row(
                        rows0[k],
                        rows1[k],
                        editor_type@,
                        supported_models@,
                    ) by {
                        if k != i {
                            assert(rows0[k].editor_type@ != editor_type@);
                        }
                    };
                    assert forall|a: int, b: int| 0 <= a < b < rows1.len()
                        implies rows1[a].editor_type@ != rows1[b].editor_type@ by {
                        assert(rows0[a].editor_type@ != rows0[b].editor_type@);
                        assert(rows1[a].editor_type@ == rows0[a].editor_type@);
                        assert(rows1[b].editor_type@ == rows0[b].editor_type@);
                    };
                }
                return ;
            }
            i += 1;
        }
        self.editor_models.push(
            EditorModelsRow { editor_type: editor_type.to_owned(), supported_models: models },
        );
        proof {
            let rows0 = old(self).editor_models@;
            let rows1 = self.editor_models@;
            assert(!em_has(rows0, editor_type@));
            assert forall|a: int, b: int| 0 <= a < b < rows1.len() implies rows1[a].editor_type@
                != rows1[b].editor_type@ by {
                if b < rows0.len() {
                    assert(rows0[a].editor_type@ != rows0[b].editor_type@);
                } else {
                    assert(rows1[b].editor_type@ == editor_type@);
                    assert(rows0[a].editor_type@ != editor_type@);
                }
            };
        }
    }

    /// All editor-model rows, in table order.
    #[verifier::loop_isolation(false)]
    pub fn get_all_editor_models(&self) -> (r: Vec<EditorModelsRow>)
        ensures
            r@.len() == self.editor_models@.len(),
            forall|k: int| 0 <= k < r@.len() ==> (#[trigger] r@[k]).editor_type@
                == self.editor_models@[k].editor_type@ && r@[k].supported_models@
                == self.editor_models@[k].supported_models@,
    {
        let n = self.editor_models.len();
        let mut out: Vec<EditorModelsRow> = Vec::new();
        let mut i: usize = 0;
        while i < n
            invariant
                i <= n,
                n == self.editor_models@.len(),
                out@.len() == i,
                forall|k: int| 0 <= k < i ==> (#[trigger] out@[k]).editor_type@
                    == self.editor_models@[k].editor_type@ && out@[k].supported_models@
                    == self.editor_models@[k].supported_models@,
            decreases n - i,
        {
            out.push(
                EditorModelsRow {
                    editor_type: self.editor_models[i].editor_type.clone(),
                    supported_models: clone_string_vec(&self.editor_models[i].supported_models),
                },
            );
            i += 1;
        }
        out
    }
}

/// How one editor-model row is affected by an upsert of `(editor_type,
/// models)`.
pub open spec fn em_upserted_row(
    pre: EditorModelsRow,
    post: EditorModelsRow,
    key: Seq<char>,
    models: Seq<String>,
) -> bool {
    if pre.editor_type@ == key {
        post.editor_type@ == pre.editor_type@ && post.supported_models@ == models
    } else {
        post == pre
    }
}

/// An element-for-element copy of a vector of strings.
#[verifier::loop_isolation(false)]
fn clone_string_vec(v: &Vec<String>) -> (r: Vec<String>)
    ensures
        r@ == v@,
{
    let n = v.len();
    let mut out: Vec<String> = Vec::new();
    let mut i: usize = 0;
    while i < n
        invariant
            i <= n,
            n == v@.len(),
            out@ == v@.take(i as int),
        decreases n - i,
    {
        out.push(v[i].clone());
        proof {
            assert(out@ =~= v@.take(i + 1));
        }
        i += 1;
    }
    proof {
        assert(v@.take(n as int) =~= v@);
    }
    out
}

/// The queue after a run of appends, one row per accepted call.
pub open spec fn queue_after_run(q: Seq<SyncQueueRowV>, added: Seq<SyncQueueRowV>) -> Seq<
    SyncQueueRowV,
>
    decreases added.len(),
{
    if added.len() == 0 {
        q
    } else {
        queue_after_run(q.push(added.first()), added.drop_first())
    }
}

/// Law: every accepted `upsert_syncable` call appends exactly one
/// sync-queue row (its contract), so a run of accepted calls grows the
/// queue by exactly the number of calls.
pub proof fn lemma_sync_queue_growth(q: Seq<SyncQueueRowV>, added: Seq<SyncQueueRowV>)
    ensures
        queue_after_run(q, added).len() == q.len() + added.len(),
    decreases added.len(),
{
    if added.len() > 0 {
        lemma_sync_queue_growth(q.push(added.first()), added.drop_first());
    }
}

/// Law: marking is idempotent — marking the same ids a second time changes
/// nothing.
pub proof fn lemma_mark_synced_idempotent(q: Seq<SyncQueueRowV>, ids: Seq<i64>)
    ensures
        marked_queue(marked_queue(q, ids), ids) == marked_queue(q, ids),
{
    assert(marked_queue(marked_queue(q, ids), ids) =~= marked_queue(q, ids));
}

/// Law: after `mark_synced(ids)`, every row whose id is named has its
/// synced flag raised.
pub proof fn lemma_mark_synced_sets_flag(q: Seq<SyncQueueRowV>, ids: Seq<i64>, i: int)
    requires
        0 <= i < q.len(),
        ids.contains(q[i].id),
    ensures
        marked_queue(q, ids)[i].synced,
{
}

/// Law: marking with an empty id list is a no-op.
pub proof fn lemma_mark_synced_empty(q: Seq<SyncQueueRowV>)
    ensures
        marked_queue(q, Seq::<i64>::empty()) == q,
{
    assert(marked_queue(q, Seq::<i64>::empty()) =~= q);
}

/// Law: a queue with no pending rows yields an empty pending view, so
/// `get_pending_sync` returns nothing.
pub proof fn lemma_no_pending_rows_empty(q: Seq<SyncQueueRowV>)
    requires
        forall|i: int| 0 <= i < q.len() ==> q[i].synced,
    ensures
        pending_rows(q).len() == 0,
    decreases q.len(),
{
    if q.len() > 0 {
        lemma_no_pending_rows_empty(q.drop_last());
    }
}

/// The `(repo_full_name, local_path)` views of the rows whose `watching`
/// flag is set, in table order.
pub open spec fn wp_watching_views(rows: Seq<WatcherPathRow>) -> Seq<(Seq<char>, Seq<char>)>
    decreases rows.len(),
{
    if rows.len() == 0 {
        Seq::empty()
    } else {
        let rest = wp_watching_views(rows.drop_last());
        if rows.last().watching {
            rest.push((rows.last().repo_full_name@, rows.last().local_path@))
        } else {
            rest
        }
    }
}

/// The watcher-path table after deleting a key: the keyed row is dropped,
/// every other row survives in order.
pub open spec fn wp_deleted(rows: Seq<WatcherPathRow>, key: Seq<char>) -> Seq<WatcherPathRow>
    decreases rows.len(),
{
    if rows.len() == 0 {
        Seq::empty()
    } else {
        let rest = wp_deleted(rows.drop_last(), key);
        if rows.last().repo_full_name@ == key {
            rest
        } else {
            rest.push(rows.last())
        }
    }
}

/// What survives a deletion: rows of the original table other than the
/// keyed one, with pairwise-distinct keys preserved.
proof fn lemma_wp_deleted_props(rows: Seq<WatcherPathRow>, key: Seq<char>)
    ensures
        forall|k: int| 0 <= k < wp_deleted(rows, key).len()
            ==> rows.contains(#[trigger] wp_deleted(rows, key)[k]) && wp_deleted(
            rows,
            key,
        )[k].repo_full_name@ != key,
        (forall|a: int, b: int| 0 <= a < b < rows.len()
            ==> rows[a].repo_full_name@ != rows[b].repo_full_name@) ==> forall|a: int, b: int|
            0 <= a < b < wp_deleted(rows, key).len() ==> wp_deleted(rows, key)[a].repo_full_name@
                != wp_deleted(rows, key)[b].repo_full_name@,
        forall|i: int| 0 <= i < rows.len() && (#[trigger] rows[i]).repo_full_name@ != key
            ==> wp_deleted(rows, key).contains(rows[i]),
    decreases rows.len(),
{
    if rows.len() == 0 {
    } else {
        let head = rows.drop_last();
        lemma_wp_deleted_props(head, key);
        let drest = wp_deleted(head, key);
        let dall = wp_deleted(rows, key);
        assert forall|k: int| 0 <= k < dall.len() implies rows.contains(#[trigger] dall[k])
            && dall[k].repo_full_name@ != key by {
            if k < drest.len() {
                assert(head.contains(drest[k]));
                let j = choose|j: int| 0 <= j < head.len() && head[j] == drest[k];
                assert(rows[j] == drest[k]);
            } else {
                assert(dall[k] == rows.last());
                assert(rows[rows.len() - 1] == rows.last());
            }
        };
        assert forall|i: int| 0 <= i < rows.len() && (#[trigger] rows[i]).repo_full_name@ != key
            implies dall.contains(rows[i]) by {
            if i < rows.len() - 1 {
                assert(head[i] == rows[i]);
                assert(drest.contains(rows[i]));
                let j = choose|j: int| 0 <= j < drest.len() && drest[j] == rows[i];
                assert(dall[j] == rows[i]);
            } else {
                assert(dall[dall.len() - 1] == rows[i]);
            }
        };
        if forall|a: int, b: int| 0 <= a < b < rows.len()
            ==> rows[a].repo_full_name@ != rows[b].repo_full_name@ {
            assert forall|a: int, b: int| 0 <= a < b < dall.len()
                implies dall[a].repo_full_name@ != dall[b].repo_full_name@ by {
                if b < drest.len() {
                    assert(forall|x: int, y: int| 0 <= x < y < head.len()
                        ==> head[x].repo_full_name@ != head[y].repo_full_name@);
                } else {
                    assert(dall[b] == rows.last());
                    assert(head.contains(drest[a]));
                    let j = choose|j: int| 0 <= j < head.len() && head[j] == drest[a];
                    assert(rows[j].repo_full_name@ != rows[rows.len() - 1].repo_full_name@);
                }
            };
        }
    }
}

/// Law: migration is idempotent — a second pass over an already-migrated
/// ledger leaves it unchanged.
pub proof fn lemma_migrate_idempotent(v: Seq<u64>)
    ensures
        LocalDb::migrated_versions(LocalDb::migrated_versions(v)) == LocalDb::migrated_versions(v),
{
    let m = LocalDb::migrated_versions(v);
    assert(m.contains(1u64)) by {
        if v.contains(1u64) {
            let i = choose|i: int| 0 <= i < v.len() && v[i] == 1u64;
            assert(m[i] == 1u64);
        } else {
            assert(v.push(1u64)[v.len() as int] == 1u64);
            if !v.push(1u64).contains(2u64) {
                assert(m[v.len() as int] == 1u64);
            }
        }
    }
    assert(m.contains(2u64)) by {
        let v1 = if v.contains(1u64) {
            v
        } else {
            v.push(1u64)
        };
        if v1.contains(2u64) {
            let i = choose|i: int| 0 <= i < v1.len() && v1[i] == 2u64;
            assert(m[i] == 2u64);
        } else {
            assert(m[v1.len() as int] == 2u64);
        }
    }
}

} // verus!
