//! Per-repository watcher decision logic: event-kind translation, the
//! ignore filter, commit inference, per-path debouncing, the contract
//! check, and the running counters. The native watcher thread converts its
//! kernel notification to plain values and asks `WatcherCore` what to do;
//! the core never performs I/O itself.

use vstd::prelude::*;
use crate::contract::{ContractEnforcer, contract_allows};
use crate::strutil;

verus! {

/// The kinds of native filesystem events the watcher distinguishes.
#[derive(Debug, Clone, Copy, PartialEq, Eq, Structural)]
pub enum FsEventKind {
    Create,
    Modify,
    Remove,
    Other,
}

/// The wire name of an event kind; unrecognized kinds have none.
pub open spec fn kind_str(kind: FsEventKind) -> Seq<char> {
    match kind {
        FsEventKind::Create => "add"@,
        FsEventKind::Modify => "change"@,
        FsEventKind::Remove => "unlink"@,
        FsEventKind::Other => ""@,
    }
}

/// The wire name of an event kind, or `None` for an unrecognized kind.
pub fn event_kind_to_str(kind: &FsEventKind) -> (r: Option<&'static str>)
    ensures
        match r {
            Some(s) => !(kind is Other) && s@ == kind_str(*kind),
            None => kind is Other,
        },
{
    match kind {
        FsEventKind::Create => Some("add"),
        FsEventKind::Modify => Some("change"),
        FsEventKind::Remove => Some("unlink"),
        FsEventKind::Other => None,
    }
}

/// A directory name the watcher always ignores.
pub open spec fn ignored_dir_name(name: Seq<char>) -> bool {
    ||| name == "node_modules"@
    ||| name == ".git"@
    ||| name == ".orchestrator"@
    ||| name == "dist"@
    ||| name == "build"@
    ||| name == ".next"@
    ||| name == "target"@
    ||| name == ".tauri"@
}

/// The span `[i, j)` is one `/`-separated component of `s`: it touches a
/// separator or an end of the string on both sides and holds no separator.
pub open spec fn comp_span(s: Seq<char>, i: int, j: int) -> bool {
    &&& 0 <= i <= j <= s.len()
    &&& (i == 0 || s[i - 1] == '/')
    &&& (j == s.len() || s[j] == '/')
    &&& (forall|k: int| i <= k < j ==> s[k] != '/')
}

/// Some `/`-separated component of the path is an ignored directory name.
pub open spec fn ignored_rel_path(s: Seq<char>) -> bool {
    exists|i: int, j: int| #[trigger] comp_span(s, i, j) && ignored_dir_name(s.subrange(i, j))
}

/// Whether a component name is on the ignore list.
fn is_ignored_dir_name(name: &str) -> (r: bool)
    ensures
        r == ignored_dir_name(name@),
{
    strutil::str_eq(name, "node_modules") || strutil::str_eq(name, ".git") || strutil::str_eq(
        name,
        ".orchestrator",
    ) || strutil::str_eq(name, "dist") || strutil::str_eq(name, "build") || strutil::str_eq(
        name,
        ".next",
    ) || strutil::str_eq(name, "target") || strutil::str_eq(name, ".tauri")
}

/// Whether any `/`-separated component of the relative path is an ignored
/// directory name.
#[verifier::loop_isolation(false)]
pub fn is_ignored(relative: &str) -> (r: bool)
    ensures
        r == ignored_rel_path(relative@),
{
    let m = relative.unicode_len();
    let mut i: usize = 0;
    while i <= m
        invariant
            i <= m + 1,
            m == relative@.len(),
            i == 0 || i - 1 == m || relative@[i - 1] == '/',
            forall|a: int, b: int| #[trigger] comp_span(relative@, a, b) && a < i
                ==> !ignored_dir_name(relative@.subrange(a, b)),
        decreases m + 1 - i,
    {
        let j = match strutil::find_char_from(relative, i, '/') {
            Some(p) => p,
            None => m,
        };
        let comp = relative.substring_char(i, j);
        if is_ignored_dir_name(comp) {
            proof {
                assert(comp_span(relative@, i as int, j as int));
            }
            return true;
        }
        proof {
            assert forall|a: int, b: int| #[trigger] comp_span(relative@, a, b) && a < j + 1
                implies !ignored_dir_name(relative@.subrange(a, b)) by {
                if a < i {
                } else {
                    assert(i <= a <= j);
                    if a > i {
                        assert(relative@[a - 1] == '/');
                        assert(i <= a - 1 < j);
                        assert(false);
                    }
                    assert(a == i);
                    if b < j {
                        assert(relative@[b] == '/');
                        assert(false);
                    }
                    if b > j {
                        assert(j < m);
                        assert(relative@[j as int] == '/');
                        assert(i as int <= j < b);
                        assert(false);
                    }
                    assert(b == j);
                }
            };
        }
        if j == m {
            proof {
                assert forall|a: int, b: int| #[trigger] comp_span(relative@, a, b)
                    implies !ignored_dir_name(relative@.subrange(a, b)) by {
                    assert(a <= m);
                    assert(a < j + 1);
                };
            }
            return false;
        }
        i = j + 1;
    }
    proof {
        assert forall|a: int, b: int| #[trigger] comp_span(relative@, a, b)
            implies !ignored_dir_name(relative@.subrange(a, b)) by {
            assert(a <= m);
            assert(a < i);
        };
    }
    false
}

/// The project-relative form of a raw path: the root prefix is stripped at
/// a component boundary, together with the separator after it; a path not
/// under the root is kept whole.
pub open spec fn rel_of(root: Seq<char>, raw: Seq<char>) -> Seq<char> {
    if root.is_prefix_of(raw) && (raw.len() == root.len() || raw[root.len() as int] == '/') {
        if raw.len() == root.len() {
            Seq::empty()
        } else {
            raw.skip(root.len() as int + 1)
        }
    } else {
        raw
    }
}

/// Strip the root directory from a raw path, yielding the relative path.
pub fn relative_to<'a>(root: &str, raw: &'a str) -> (r: &'a str)
    ensures
        r@ == rel_of(root@, raw@),
{
    let n = root.unicode_len();
    let m = raw.unicode_len();
    if strutil::starts_with(raw, root) {
        if n == m {
            return raw.substring_char(m, m);
        }
        if raw.get_char(n) == '/' {
            return raw.substring_char(n + 1, m);
        }
    }
    raw
}

/// A file-change event handed to the UI channel.
#[derive(Debug, Clone)]
pub struct FileChangeEvent {
    pub path: String,
    pub event_type: String,
    pub violation: Option<String>,
}

/// What the watcher decides to do with one raw event.
#[derive(Debug)]
pub enum WatchOutcome {
    /// The event is dropped: the watcher is stopped, the kind is
    /// unrecognized, the path is ignored, or the path was debounced.
    Skipped,
    /// A commit was inferred; the payload is the new cumulative count.
    CommitDetected(u64),
    /// A file change is emitted; the payload carries the event and the new
    /// cumulative file-change count.
    Changed(FileChangeEvent, u64),
}

/// The last emission instant recorded for a path, by first match.
pub open spec fn debounce_lookup(entries: Seq<(String, u64)>, key: Seq<char>) -> Option<u64>
    decreases entries.len(),
{
    if entries.len() == 0 {
        None
    } else if entries.first().0@ == key {
        Some(entries.first().1)
    } else {
        debounce_lookup(entries.drop_first(), key)
    }
}

/// A new event for the path at instant `now` falls inside the debounce
/// window of the recorded emission.
pub open spec fn debounce_suppresses(entries: Seq<(String, u64)>, key: Seq<char>, now: u64) -> bool {
    match debounce_lookup(entries, key) {
        Some(last) => now < last + 1000,
        None => false,
    }
}

/// The stage of handling that claims one raw event.
#[derive(Debug, Clone, Copy)]
pub enum WatchDecision {
    NotRunning,
    UnknownKind,
    Commit,
    Ignored,
    Debounced,
    Emit,
}

/// One watcher's state: the project root, the running flag, the running
/// counters, the per-path debounce record, and the contract enforcer.
pub struct WatcherCore {
    pub root: String,
    pub running: bool,
    pub files_changed: u64,
    pub commits_detected: u64,
    pub debounce: Vec<(String, u64)>,
    pub enforcer: ContractEnforcer,
}

impl WatcherCore {
    /// Well-formedness: debounce entries are keyed by distinct paths.
    pub open spec fn wf(self) -> bool {
        forall|a: int, b: int| 0 <= a < b < self.debounce@.len() ==> self.debounce@[a].0@
            != self.debounce@[b].0@
    }

    /// How one raw event is decided, in priority order: a stopped watcher
    /// drops everything; unrecognized kinds are dropped; a path under
    /// `.git/refs` is a commit; an ignored path is dropped; a path inside
    /// its debounce window is dropped; everything else is emitted.
    pub open spec fn decision(self, raw: Seq<char>, kind: FsEventKind, now: u64) -> WatchDecision {
        let rel = rel_of(self.root@, raw);
        if !self.running {
            WatchDecision::NotRunning
        } else if kind is Other {
            WatchDecision::UnknownKind
        } else if strutil::contains_seq(raw, ".git/refs"@) {
            WatchDecision::Commit
        } else if ignored_rel_path(rel) || ".orchestrator"@.is_prefix_of(rel)
            || ".git/"@.is_prefix_of(rel) || strutil::contains_seq(rel, "node_modules"@) {
            WatchDecision::Ignored
        } else if debounce_suppresses(self.debounce@, rel, now) {
            WatchDecision::Debounced
        } else {
            WatchDecision::Emit
        }
    }

    /// A fresh core for one project root, with the counters restored from
    /// the session and an empty debounce record.
    pub fn new(
        root: String,
        enforcer: ContractEnforcer,
        files_changed: u64,
        commits_detected: u64,
    ) -> (r: Self)
        ensures
            r.wf(),
            r.root == root,
            r.running,
            r.files_changed == files_changed,
            r.commits_detected == commits_detected,
            r.debounce@.len() == 0,
            r.enforcer == enforcer,
    {
        WatcherCore {
            root: root,
            running: true,
            files_changed: files_changed,
            commits_detected: commits_detected,
            debounce: Vec::new(),
            enforcer: enforcer,
        }
    }

    /// Clear the running flag; a stopped core drops every event.
    pub fn stop(&mut self)
        ensures
            !final(self).running,
            final(self).root == old(self).root,
            final(self).files_changed == old(self).files_changed,
            final(self).commits_detected == old(self).commits_detected,
            final(self).debounce == old(self).debounce,
            final(self).enforcer == old(self).enforcer,
    {
        self.running = false;
    }

    /// Handle one raw event at instant `now_ms`: decide its stage, update
    /// the counters and the debounce record, and report what to emit.
    #[verifier::loop_isolation(false)]
    pub fn handle_event(&mut self, raw_path: &str, kind: &FsEventKind, now_ms: u64) -> (r:
        WatchOutcome)
        requires
            old(self).wf(),
            old(self).files_changed < u64::MAX,
            old(self).commits_detected < u64::MAX,
        ensures
            final(self).wf(),
            final(self).root == old(self).root,
            final(self).running == old(self).running,
            final(self).enforcer == old(self).enforcer,
            ({
                let d = old(self).decision(raw_path@, *kind, now_ms);
                let rel = rel_of(old(self).root@, raw_path@);
                &&& (d is NotRunning || d is UnknownKind || d is Ignored || d is Debounced) ==> (
                r is Skipped && *final(self) == *old(self))
                &&& d is Commit ==> {
                    &&& r matches WatchOutcome::CommitDetected(c) && c == old(
                        self,
                    ).commits_detected + 1
                    &&& final(self).commits_detected == old(self).commits_detected + 1
                    &&& final(self).files_changed == old(self).files_changed
                    &&& final(self).debounce == old(self).debounce
                }
                &&& d is Emit ==> {
                    &&& r matches WatchOutcome::Changed(ev, c) ==> {
                        &&& c == old(self).files_changed + 1
                        &&& ev.path@ == rel
                        &&& ev.event_type@ == kind_str(*kind)
                        &&& (ev.violation is None <==> contract_allows(
                            old(self).enforcer.contract.allowed_paths@,
                            rel,
                        ))
                        &&& (ev.violation matches Some(m) ==> m@ == "path '"@ + rel
                            + "' is not in the allowed paths"@)
                    }
                    &&& r is Changed
                    &&& final(self).files_changed == old(self).files_changed + 1
                    &&& final(self).commits_detected == old(self).commits_detected
                    &&& debounce_lookup(final(self).debounce@, rel) == Some(now_ms)
                    &&& forall|k: Seq<char>| k != rel ==> #[trigger] debounce_lookup(
                        final(self).debounce@,
                        k,
                    ) == debounce_lookup(old(self).debounce@, k)
                }
                &&& (r is Changed <==> d is Emit)
                &&& (r is CommitDetected <==> d is Commit)
            }),
    {
        if !self.running {
            return WatchOutcome::Skipped;
        }
        let type_str = match event_kind_to_str(kind) {
            Some(s) => s,
            None => {
                return WatchOutcome::Skipped;
            },
        };
        if strutil::contains_sub(raw_path, ".git/refs") {
            self.commits_detected = self.commits_detected + 1;
            return WatchOutcome::CommitDetected(self.commits_detected);
        }
        let relative = relative_to(self.root.as_str(), raw_path);
        if is_ignored(relative) || strutil::starts_with(relative, ".orchestrator")
            || strutil::starts_with(relative, ".git/") || strutil::contains_sub(
            relative,
            "node_modules",
        ) {
            return WatchOutcome::Skipped;
        }
        let n = self.debounce.len();
        let mut i: usize = 0;
        while i < n
            invariant
                i <= n,
                n == self.debounce@.len(),
                *self == *old(self),
                forall|j: int| 0 <= j < i ==> self.debounce@[j].0@ != relative@,
            decreases n - i,
        {
            if strutil::str_eq(self.debounce[i].0.as_str(), relative) {
                proof {
                    lemma_debounce_lookup_at(self.debounce@, i as int, relative@);
                }
                let last = self.debounce[i].1;
                if now_ms < last || now_ms - last < 1000 {
                    return WatchOutcome::Skipped;
                }
                let entry = (self.debounce[i].0.clone(), now_ms);
                self.debounce.set(i, entry);
                proof {
                    lemma_debounce_lookup_update(old(self).debounce@, i as int, relative@, now_ms);
                    assert(self.debounce@ =~= old(self).debounce@.update(
                        i as int,
                        (old(self).debounce@[i as int].0, now_ms),
                    ));
                }
                return self.emit_change(relative, type_str, kind, now_ms);
            }
            i += 1;
        }
        proof {
            lemma_debounce_lookup_absent(self.debounce@, relative@);
        }
        let entry = (relative.to_owned(), now_ms);
        self.debounce.push(entry);
        proof {
            lemma_debounce_lookup_push(
                old(self).debounce@,
                self.debounce@.last(),
                relative@,
                now_ms,
            );
            assert forall|a: int, b: int| 0 <= a < b < self.debounce@.len()
                implies self.debounce@[a].0@ != self.debounce@[b].0@ by {
                if b < old(self).debounce@.len() {
                } else {
                    assert(self.debounce@[b].0@ == relative@);
                    assert(old(self).debounce@[a].0@ != relative@);
                }
            };
        }
        self.emit_change(relative, type_str, kind, now_ms)
    }

    /// Count and report one emitted file change, with its contract check.
    fn emit_change(&mut self, relative: &str, type_str: &str, kind: &FsEventKind, now_ms: u64) -> (r:
        WatchOutcome)
        requires
            old(self).files_changed < u64::MAX,
            type_str@ == kind_str(*kind),
        ensures
            final(self).files_changed == old(self).files_changed + 1,
            final(self).commits_detected == old(self).commits_detected,
            final(self).debounce == old(self).debounce,
            final(self).root == old(self).root,
            final(self).running == old(self).running,
            final(self).enforcer == old(self).enforcer,
            r is Changed,
            r matches WatchOutcome::Changed(ev, c) ==> {
                &&& c == old(self).files_changed + 1
                &&& ev.path@ == relative@
                &&& ev.event_type@ == kind_str(*kind)
                &&& (ev.violation is None <==> contract_allows(
                    old(self).enforcer.contract.allowed_paths@,
                    relative@,
                ))
                &&& (ev.violation matches Some(m) ==> m@ == "path '"@ + relative@
                    + "' is not in the allowed paths"@)
            },
    {
        self.files_changed = self.files_changed + 1;
        let violation = match self.enforcer.check_path(relative) {
            Some(v) => Some(v.reason),
            None => None,
        };
        let ev = FileChangeEvent {
            path: relative.to_owned(),
            event_type: type_str.to_owned(),
            violation: violation,
        };
        WatchOutcome::Changed(ev, self.files_changed)
    }
}

/// Looking up the key of the first-match entry at `i` yields its instant.
proof fn lemma_debounce_lookup_at(entries: Seq<(String, u64)>, i: int, key: Seq<char>)
    requires
        0 <= i < entries.len(),
        entries[i].0@ == key,
        forall|j: int| 0 <= j < i ==> entries[j].0@ != key,
    ensures
        debounce_lookup(entries, key) == Some(entries[i].1),
    decreases entries.len(),
{
    if i > 0 {
        lemma_debounce_lookup_at(entries.drop_first(), i - 1, key);
    }
}

/// A key held by no entry looks up to nothing.
proof fn lemma_debounce_lookup_absent(entries: Seq<(String, u64)>, key: Seq<char>)
    requires
        forall|j: int| 0 <= j < entries.len() ==> entries[j].0@ != key,
    ensures
        debounce_lookup(entries, key) is None,
    decreases entries.len(),
{
    if entries.len() > 0 {
        lemma_debounce_lookup_absent(entries.drop_first(), key);
    }
}

/// Updating the instant of the first-match entry changes that key's lookup
/// and no other's.
proof fn lemma_debounce_lookup_update(entries: Seq<(String, u64)>, i: int, key: Seq<char>, now: u64)
    requires
        0 <= i < entries.len(),
        entries[i].0@ == key,
        forall|j: int| 0 <= j < i ==> entries[j].0@ != key,
    ensures
        debounce_lookup(entries.update(i, (entries[i].0, now)), key) == Some(now),
        forall|k: Seq<char>| k != key ==> #[trigger] debounce_lookup(
            entries.update(i, (entries[i].0, now)),
            k,
        ) == debounce_lookup(entries, k),
    decreases entries.len(),
{
    let updated = entries.update(i, (entries[i].0, now));
    if i == 0 {
        assert(updated.first() == (entries[i].0, now));
        assert forall|k: Seq<char>| k != key implies #[trigger] debounce_lookup(updated, k)
            == debounce_lookup(entries, k) by {
            assert(updated.drop_first() =~= entries.drop_first());
        };
    } else {
        lemma_debounce_lookup_update(entries.drop_first(), i - 1, key, now);
        assert(updated.drop_first() =~= entries.drop_first().update(
            i - 1,
            (entries.drop_first()[i - 1].0, now),
        ));
        assert(updated.first() == entries.first());
        assert(debounce_lookup(updated, key) == Some(now));
        assert forall|k: Seq<char>| k != key implies #[trigger] debounce_lookup(updated, k)
            == debounce_lookup(entries, k) by {
            if updated.first().0@ != k {
                assert(debounce_lookup(updated.drop_first(), k) == debounce_lookup(
                    entries.drop_first(),
                    k,
                ));
            }
        };
    }
}

/// Appending an entry for a fresh key changes that key's lookup and no
/// other's.
proof fn lemma_debounce_lookup_push(
    entries: Seq<(String, u64)>,
    entry: (String, u64),
    key: Seq<char>,
    now: u64,
)
    requires
        entry.0@ == key,
        entry.1 == now,
        forall|j: int| 0 <= j < entries.len() ==> entries[j].0@ != key,
    ensures
        debounce_lookup(entries.push(entry), key) == Some(now),
        forall|k: Seq<char>| k != key ==> #[trigger] debounce_lookup(entries.push(entry), k)
            == debounce_lookup(entries, k),
    decreases entries.len(),
{
    let pushed = entries.push(entry);
    if entries.len() == 0 {
        assert(pushed.first() == entry);
        assert forall|k: Seq<char>| k != key implies #[trigger] debounce_lookup(pushed, k)
            == debounce_lookup(entries, k) by {
            assert(pushed.drop_first() =~= Seq::<(String, u64)>::empty());
            assert(debounce_lookup(pushed.drop_first(), k) is None);
            assert(debounce_lookup(entries, k) is None);
        };
    } else {
        lemma_debounce_lookup_push(entries.drop_first(), entry, key, now);
        assert(pushed.first() == entries.first());
        assert(pushed.drop_first() =~= entries.drop_first().push(entry));
        assert(debounce_lookup(pushed, key) == Some(now));
        assert forall|k: Seq<char>| k != key implies #[trigger] debounce_lookup(pushed, k)
            == debounce_lookup(entries, k) by {
            if pushed.first().0@ != k {
                assert(debounce_lookup(pushed.drop_first(), k) == debounce_lookup(
                    entries.drop_first(),
                    k,
                ));
            }
        };
    }
}

/// Law: two raw events for the same path within 1000 ms produce at most one
/// emission — after an emission at `t1` records the path, a second event
/// for the same path at any `t2 < t1 + 1000` is not emitted.
pub proof fn lemma_debounce_suppresses_second(
    pre: WatcherCore,
    post: WatcherCore,
    raw: Seq<char>,
    kind1: FsEventKind,
    kind2: FsEventKind,
    t1: u64,
    t2: u64,
)
    requires
        pre.decision(raw, kind1, t1) is Emit,
        post.root == pre.root,
        debounce_lookup(post.debounce@, rel_of(pre.root@, raw)) == Some(t1),
        t2 < t1 + 1000,
    ensures
        !(post.decision(raw, kind2, t2) is Emit),
{
}

/// Law: a path whose relative form holds an ignored directory component is
/// never emitted as a file change.
pub proof fn lemma_ignored_never_emitted(
    core: WatcherCore,
    raw: Seq<char>,
    kind: FsEventKind,
    now: u64,
)
    requires
        ignored_rel_path(rel_of(core.root@, raw)),
    ensures
        !(core.decision(raw, kind, now) is Emit),
{
}

} // verus!
