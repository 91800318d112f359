//! The watch supervisor: the process-wide registry of watched projects,
//! the global watching switch, and the transitions behind every watch
//! command. Each transition reports the watcher actions — starts and
//! stops — that the surrounding process must perform on its native
//! watcher handles.

use vstd::prelude::*;
use crate::strutil;

verus! {

/// An action the surrounding process performs on a native watcher.
#[derive(Debug, Clone)]
pub enum WatchAction {
    /// Stop and drop the watcher of the named repository.
    Stop(String),
    /// Start a watcher for the named repository at the given path.
    Start(String, String),
}

/// The action stops the named repository's watcher.
pub open spec fn action_stops(a: WatchAction, repo: Seq<char>) -> bool {
    match a {
        WatchAction::Stop(s) => s@ == repo,
        _ => false,
    }
}

/// The action starts a watcher for the named repository at the path.
pub open spec fn action_starts(a: WatchAction, repo: Seq<char>, path: Seq<char>) -> bool {
    match a {
        WatchAction::Start(r, p) => r@ == repo && p@ == path,
        _ => false,
    }
}

/// A repository key occurs in the project registry.
pub open spec fn reg_has(ps: Seq<(String, String)>, repo: Seq<char>) -> bool {
    exists|i: int| 0 <= i < ps.len() && ps[i].0@ == repo
}

/// A repository is listed as watched.
pub open spec fn listed(ws: Seq<Seq<char>>, repo: Seq<char>) -> bool {
    exists|i: int| 0 <= i < ws.len() && ws[i] == repo
}

/// The watched list after a repository leaves it.
pub open spec fn unlisted(ws: Seq<Seq<char>>, repo: Seq<char>) -> Seq<Seq<char>>
    decreases ws.len(),
{
    if ws.len() == 0 {
        Seq::empty()
    } else {
        let rest = unlisted(ws.drop_last(), repo);
        if ws.last() == repo {
            rest
        } else {
            rest.push(ws.last())
        }
    }
}

/// The repository keys of the registry, in order.
pub open spec fn reg_keys(ps: Seq<(String, String)>) -> Seq<Seq<char>> {
    Seq::new(ps.len(), |i: int| ps[i].0@)
}

/// How one registry row is affected by an upsert of `(repo, path)`.
pub open spec fn reg_upserted_row(
    pre: (String, String),
    post: (String, String),
    repo: Seq<char>,
    path: Seq<char>,
) -> bool {
    if pre.0@ == repo {
        post.0@ == pre.0@ && post.1@ == path
    } else {
        post == pre
    }
}

/// The registry after a repository key leaves it.
pub open spec fn reg_deleted(ps: Seq<(String, String)>, repo: Seq<char>) -> Seq<(String, String)>
    decreases ps.len(),
{
    if ps.len() == 0 {
        Seq::empty()
    } else {
        let rest = reg_deleted(ps.drop_last(), repo);
        if ps.last().0@ == repo {
            rest
        } else {
            rest.push(ps.last())
        }
    }
}

/// What survives a registry deletion: rows of the original registry other
/// than the keyed one, with distinct keys preserved.
proof fn lemma_reg_deleted_props(ps: Seq<(String, String)>, repo: Seq<char>)
    ensures
        forall|k: int| 0 <= k < reg_deleted(ps, repo).len() ==> ps.contains(
            #[trigger] reg_deleted(ps, repo)[k],
        ) && reg_deleted(ps, repo)[k].0@ != repo,
        (forall|a: int, b: int| 0 <= a < b < ps.len() ==> ps[a].0@ != ps[b].0@) ==> forall|
            a: int,
            b: int,
        | 0 <= a < b < reg_deleted(ps, repo).len() ==> reg_deleted(ps, repo)[a].0@ != reg_deleted(
            ps,
            repo,
        )[b].0@,
        forall|k: int| 0 <= k < ps.len() && (#[trigger] ps[k]).0@ != repo ==> reg_deleted(
            ps,
            repo,
        ).contains(ps[k]),
    decreases ps.len(),
{
    if ps.len() > 0 {
        let head = ps.drop_last();
        lemma_reg_deleted_props(head, repo);
        let drest = reg_deleted(head, repo);
        let dall = reg_deleted(ps, repo);
        assert forall|k: int| 0 <= k < dall.len() implies ps.contains(#[trigger] dall[k])
            && dall[k].0@ != repo by {
            if k < drest.len() {
                assert(head.contains(drest[k]));
                let j = choose|j: int| 0 <= j < head.len() && head[j] == drest[k];
                assert(ps[j] == drest[k]);
            } else {
                assert(dall[k] == ps.last());
                assert(ps[ps.len() - 1] == ps.last());
            }
        };
        assert forall|k: int| 0 <= k < ps.len() && (#[trigger] ps[k]).0@ != repo implies dall
            .contains(ps[k]) by {
            if k < ps.len() - 1 {
                assert(head[k] == ps[k]);
                assert(drest.contains(ps[k]));
                let j = choose|j: int| 0 <= j < drest.len() && drest[j] == ps[k];
                assert(dall[j] == ps[k]);
            } else {
                assert(dall[dall.len() - 1] == ps[k]);
            }
        };
        if forall|a: int, b: int| 0 <= a < b < ps.len() ==> ps[a].0@ != ps[b].0@ {
            assert forall|a: int, b: int| 0 <= a < b < dall.len() implies dall[a].0@
                != dall[b].0@ by {
                assert(forall|x: int, y: int| 0 <= x < y < head.len() ==> head[x].0@ != head[y].0@);
                if b >= drest.len() {
                    assert(dall[b] == ps.last());
                    assert(head.contains(drest[a]));
                    let j = choose|j: int| 0 <= j < head.len() && head[j] == drest[a];
                    assert(ps[j].0@ != ps[ps.len() - 1].0@);
                }
            };
        }
    }
}

/// What survives the unlisting: entries other than the named one, their
/// distinctness preserved.
proof fn lemma_unlisted_props(ws: Seq<Seq<char>>, repo: Seq<char>)
    ensures
        forall|k: int| 0 <= k < unlisted(ws, repo).len() ==> ws.contains(
            #[trigger] unlisted(ws, repo)[k],
        ) && unlisted(ws, repo)[k] != repo,
        (forall|a: int, b: int| 0 <= a < b < ws.len() ==> ws[a] != ws[b]) ==> forall|a: int, b: int|
            0 <= a < b < unlisted(ws, repo).len() ==> unlisted(ws, repo)[a] != unlisted(
                ws,
                repo,
            )[b],
        !listed(unlisted(ws, repo), repo),
    decreases ws.len(),
{
    if ws.len() > 0 {
        let head = ws.drop_last();
        lemma_unlisted_props(head, repo);
        let drest = unlisted(head, repo);
        let dall = unlisted(ws, repo);
        assert forall|k: int| 0 <= k < dall.len() implies ws.contains(#[trigger] dall[k])
            && dall[k] != repo by {
            if k < drest.len() {
                assert(head.contains(drest[k]));
                let j = choose|j: int| 0 <= j < head.len() && head[j] == drest[k];
                assert(ws[j] == drest[k]);
            } else {
                assert(dall[k] == ws.last());
                assert(ws[ws.len() - 1] == ws.last());
            }
        };
        if forall|a: int, b: int| 0 <= a < b < ws.len() ==> ws[a] != ws[b] {
            assert forall|a: int, b: int| 0 <= a < b < dall.len() implies dall[a] != dall[b] by {
                assert(forall|x: int, y: int| 0 <= x < y < head.len() ==> head[x] != head[y]);
                if b >= drest.len() {
                    assert(dall[b] == ws.last());
                    assert(head.contains(drest[a]));
                    let j = choose|j: int| 0 <= j < head.len() && head[j] == drest[a];
                    assert(ws[j] != ws[ws.len() - 1]);
                }
            };
        }
    }
}

/// The process-wide watch registry: the global switch, the known projects
/// and the repositories whose native watcher is running.
pub struct Supervisor {
    pub enabled: bool,
    pub projects: Vec<(String, String)>,
    pub watching: Vec<String>,
}

impl Supervisor {
    /// Well-formedness: project keys and watched names are each distinct.
    pub open spec fn wf(self) -> bool {
        &&& (forall|a: int, b: int| 0 <= a < b < self.projects@.len() ==> self.projects@[a].0@
            != self.projects@[b].0@)
        &&& (forall|a: int, b: int| 0 <= a < b < self.watching@.len()
            ==> self.watching.deep_view()[a] != self.watching.deep_view()[b])
    }

    /// Boot state: the projects restored from the store, watching enabled
    /// globally but no watcher running yet.
    pub fn boot(projects: Vec<(String, String)>) -> (r: Self)
        requires
            forall|a: int, b: int| 0 <= a < b < projects@.len() ==> projects@[a].0@
                != projects@[b].0@,
        ensures
            r.wf(),
            r.enabled,
            r.projects == projects,
            r.watching@.len() == 0,
    {
        Supervisor { enabled: true, projects, watching: Vec::new() }
    }

    /// Whether a repository is listed as watched.
    #[verifier::loop_isolation(false)]
    fn is_watching(&self, repo: &str) -> (r: bool)
        ensures
            r == listed(self.watching.deep_view(), repo@),
    {
        let n = self.watching.len();
        let mut i: usize = 0;
        while i < n
            invariant
                i <= n,
                n == self.watching@.len(),
                forall|j: int| 0 <= j < i ==> self.watching.deep_view()[j] != repo@,
            decreases n - i,
        {
            if strutil::str_eq(self.watching[i].as_str(), repo) {
                proof {
                    assert(self.watching.deep_view()[i as int] == repo@);
                }
                return true;
            }
            i += 1;
        }
        false
    }

    /// Remove a repository from the watched list, keeping the others in
    /// order.
    #[verifier::loop_isolation(false)]
    fn unlist(&mut self, repo: &str)
        requires
            old(self).wf(),
        ensures
            final(self).wf(),
            final(self).watching.deep_view() == unlisted(old(self).watching.deep_view(), repo@),
            !listed(final(self).watching.deep_view(), repo@),
            final(self).enabled == old(self).enabled,
            final(self).projects == old(self).projects,
    {
        let n = self.watching.len();
        let mut kept: Vec<String> = Vec::new();
        let mut i: usize = 0;
        while i < n
            invariant
                i <= n,
                n == self.watching@.len(),
                *self == *old(self),
                kept.deep_view() == unlisted(self.watching.deep_view().take(i as int), repo@),
            decreases n - i,
        {
            if !strutil::str_eq(self.watching[i].as_str(), repo) {
                kept.push(self.watching[i].clone());
            }
            proof {
                assert(self.watching.deep_view().take(i + 1).drop_last()
                    =~= self.watching.deep_view().take(i as int));
                assert(self.watching.deep_view().take(i + 1).last() == self.watching@[i as int]@);
                assert(kept.deep_view() =~= unlisted(
                    self.watching.deep_view().take(i + 1),
                    repo@,
                ));
            }
            i += 1;
        }
        proof {
            assert(self.watching.deep_view().take(n as int) =~= self.watching.deep_view());
            lemma_unlisted_props(self.watching.deep_view(), repo@);
        }
        self.watching = kept;
    }

    /// Register a project and start watching it. The path must exist; a
    /// running watcher for the repository is stopped first; the pair is
    /// recorded; a new watcher starts only while watching is globally
    /// enabled. The returned actions are what the caller must perform, in
    /// order.
    #[verifier::loop_isolation(false)]
    #[verifier::rlimit(30)]
    pub fn add_watch_project(&mut self, repo: &str, path: &str, path_exists: bool) -> (r: Result<
        Vec<WatchAction>,
        String,
    >)
        requires
            old(self).wf(),
        ensures
            final(self).wf(),
            final(self).enabled == old(self).enabled,
            r is Err <==> !path_exists,
            r matches Err(e) ==> e@ == "path does not exist: "@ + path@ && *final(self) == *old(
                self,
            ),
            r matches Ok(actions) ==> {
                let had = listed(old(self).watching.deep_view(), repo@);
                let removed = unlisted(old(self).watching.deep_view(), repo@);
                &&& (reg_has(old(self).projects@, repo@) ==> {
                    &&& final(self).projects@.len() == old(self).projects@.len()
                    &&& forall|k: int| 0 <= k < old(self).projects@.len()
                        ==> #[trigger] reg_upserted_row(
                            old(self).projects@[k],
                            final(self).projects@[k],
                            repo@,
                            path@,
                        )
                })
                &&& (!reg_has(old(self).projects@, repo@) ==> {
                    &&& final(self).projects@.len() == old(self).projects@.len() + 1
                    &&& forall|k: int| 0 <= k < old(self).projects@.len()
                        ==> final(self).projects@[k] == old(self).projects@[k]
                    &&& final(self).projects@.last().0@ == repo@
                    &&& final(self).projects@.last().1@ == path@
                })
                &&& (old(self).enabled ==> final(self).watching.deep_view() == removed.push(repo@))
                &&& (!old(self).enabled ==> final(self).watching.deep_view() == removed)
                &&& actions@.len() == (if had {
                    1int
                } else {
                    0int
                }) + (if old(self).enabled {
                    1int
                } else {
                    0int
                })
                &&& (had ==> action_stops(actions@[0], repo@))
                &&& (old(self).enabled ==> action_starts(actions@.last(), repo@, path@))
            },
    {
        if !path_exists {
            let mut msg = "path does not exist: ".to_owned();
            msg.append(path);
            return Err(msg);
        }
        let mut actions: Vec<WatchAction> = Vec::new();
        if self.is_watching(repo) {
            actions.push(WatchAction::Stop(repo.to_owned()));
        }
        self.unlist(repo);
        let n = self.projects.len();
        let mut i: usize = 0;
        let mut updated = false;
        while i < n && !updated
            invariant
                i <= n,
                n == self.projects@.len(),
                self.enabled == old(self).enabled,
                self.watching == self.watching,
                !updated ==> self.projects == old(self).projects,
                !updated ==> forall|j: int| 0 <= j < i ==> old(self).projects@[j].0@ != repo@,
                updated ==> {
                    &&& reg_has(old(self).projects@, repo@)
                    &&& self.projects@.len() == old(self).projects@.len()
                    &&& forall|k: int| 0 <= k < old(self).projects@.len()
                        ==> #[trigger] reg_upserted_row(
                            old(self).projects@[k],
                            self.projects@[k],
                            repo@,
                            path@,
                        )
                    &&& forall|a: int, b: int| 0 <= a < b < self.projects@.len()
                        ==> self.projects@[a].0@ != self.projects@[b].0@
                },
                self.wf(),
                unlisted(old(self).watching.deep_view(), repo@) == self.watching.deep_view(),
                !listed(self.watching.deep_view(), repo@),
            decreases n - i + (if updated {
                0int
            } else {
                1int
            }),
        {
            if strutil::str_eq(self.projects[i].0.as_str(), repo) {
                let row = (self.projects[i].0.clone(), path.to_owned());
                self.projects.set(i, row);
                proof {
                    let rows0 = old(self).projects@;
                    let rows1 = self.projects@;
                    assert(rows0[i as int].0@ == repo@);
                    assert(reg_has(rows0, repo@));
                    assert forall|k: int| 0 <= k < rows0.len() implies #[trigger] reg_upserted_row(
                        rows0[k],
                        rows1[k],
                        repo@,
                        path@,
                    ) by {
                        if k != i {
                            assert(rows0[k].0@ != repo@);
                        }
                    };
                    assert forall|a: int, b: int| 0 <= a < b < rows1.len() implies rows1[a].0@
                        != rows1[b].0@ by {
                        assert(rows0[a].0@ != rows0[b].0@);
                        assert(rows1[a].0@ == rows0[a].0@);
                        assert(rows1[b].0@ == rows0[b].0@);
                    };
                }
                updated = true;
            } else {
                i += 1;
            }
        }
        if !updated {
            self.projects.push((repo.to_owned(), path.to_owned()));
            proof {
                let rows0 = old(self).projects@;
                let rows1 = self.projects@;
                assert(!reg_has(rows0, repo@));
                assert forall|a: int, b: int| 0 <= a < b < rows1.len() implies rows1[a].0@
                    != rows1[b].0@ by {
                    if b < rows0.len() {
                        assert(rows0[a].0@ != rows0[b].0@);
                    } else {
                        assert(rows1[b].0@ == repo@);
                        assert(rows0[a].0@ != repo@);
                    }
                };
            }
        }
        if self.enabled {
            let ghost pre_watching = self.watching.deep_view();
            actions.push(WatchAction::Start(repo.to_owned(), path.to_owned()));
            self.watching.push(repo.to_owned());
            proof {
                assert(self.watching.deep_view() =~= pre_watching.push(repo@));
                assert forall|a: int, b: int| 0 <= a < b < self.watching@.len()
                    implies self.watching.deep_view()[a] != self.watching.deep_view()[b] by {
                    if b == self.watching@.len() - 1 {
                        lemma_unlisted_props(old(self).watching.deep_view(), repo@);
                        assert(pre_watching[a] != repo@);
                    }
                };
            }
        }
        Ok(actions)
    }

    /// Unregister a project: its watcher is stopped if running, and the
    /// pair leaves the registry.
    #[verifier::loop_isolation(false)]
    pub fn remove_watch_project(&mut self, repo: &str) -> (r: Vec<WatchAction>)
        requires
            old(self).wf(),
        ensures
            final(self).wf(),
            final(self).enabled == old(self).enabled,
            final(self).watching.deep_view() == unlisted(old(self).watching.deep_view(), repo@),
            final(self).projects@ == reg_deleted(old(self).projects@, repo@),
            forall|k: int| 0 <= k < final(self).projects@.len() ==> old(self).projects@.contains(
                #[trigger] final(self).projects@[k],
            ) && final(self).projects@[k].0@ != repo@,
            forall|k: int| 0 <= k < old(self).projects@.len() && (#[trigger] old(
                self,
            ).projects@[k]).0@ != repo@ ==> final(self).projects@.contains(old(self).projects@[k]),
            !reg_has(final(self).projects@, repo@),
            r@.len() == (if listed(old(self).watching.deep_view(), repo@) {
                1int
            } else {
                0int
            }),
            listed(old(self).watching.deep_view(), repo@) ==> action_stops(r@[0], repo@),
    {
        let mut actions: Vec<WatchAction> = Vec::new();
        if self.is_watching(repo) {
            actions.push(WatchAction::Stop(repo.to_owned()));
        }
        self.unlist(repo);
        let n = self.projects.len();
        let mut kept: Vec<(String, String)> = Vec::new();
        let mut i: usize = 0;
        while i < n
            invariant
                i <= n,
                n == self.projects@.len(),
                self.projects == old(self).projects,
                kept@ == reg_deleted(self.projects@.take(i as int), repo@),
            decreases n - i,
        {
            if !strutil::str_eq(self.projects[i].0.as_str(), repo) {
                let row = (self.projects[i].0.clone(), self.projects[i].1.clone());
                kept.push(row);
            }
            proof {
                assert(self.projects@.take(i + 1).drop_last() =~= self.projects@.take(i as int));
                assert(self.projects@.take(i + 1).last() == self.projects@[i as int]);
            }
            i += 1;
        }
        proof {
            assert(self.projects@.take(n as int) =~= self.projects@);
            lemma_reg_deleted_props(self.projects@, repo@);
        }
        self.projects = kept;
        actions
    }

    /// Flip the global watching switch. Disabling stops every running
    /// watcher and clears the watched list; enabling starts a watcher for
    /// every registered project. Returns the actions, the new state of
    /// the switch and the number of registered projects.
    #[verifier::loop_isolation(false)]
    pub fn toggle_watch_all(&mut self) -> (r: (Vec<WatchAction>, bool, usize))
        requires
            old(self).wf(),
        ensures
            final(self).wf(),
            final(self).projects == old(self).projects,
            final(self).enabled == !old(self).enabled,
            r.1 == final(self).enabled,
            r.2 == old(self).projects@.len(),
            old(self).enabled ==> {
                &&& final(self).watching@.len() == 0
                &&& r.0@.len() == old(self).watching@.len()
                &&& forall|k: int| 0 <= k < r.0@.len() ==> action_stops(
                    #[trigger] r.0@[k],
                    old(self).watching.deep_view()[k],
                )
            },
            !old(self).enabled ==> {
                &&& final(self).watching.deep_view() == reg_keys(old(self).projects@)
                &&& r.0@.len() == old(self).projects@.len()
                &&& forall|k: int| 0 <= k < r.0@.len() ==> action_starts(
                    #[trigger] r.0@[k],
                    old(self).projects@[k].0@,
                    old(self).projects@[k].1@,
                )
            },
    {
        let mut actions: Vec<WatchAction> = Vec::new();
        if self.enabled {
            let n = self.watching.len();
            let mut i: usize = 0;
            while i < n
                invariant
                    i <= n,
                    n == self.watching@.len(),
                    *self == *old(self),
                    actions@.len() == i,
                    forall|k: int| 0 <= k < i ==> action_stops(
                        #[trigger] actions@[k],
                        self.watching.deep_view()[k],
                    ),
                decreases n - i,
            {
                actions.push(WatchAction::Stop(self.watching[i].clone()));
                i += 1;
            }
            self.watching = Vec::new();
            self.enabled = false;
            (actions, false, self.projects.len())
        } else {
            let n = self.projects.len();
            let mut started: Vec<String> = Vec::new();
            let mut i: usize = 0;
            while i < n
                invariant
                    i <= n,
                    n == self.projects@.len(),
                    *self == *old(self),
                    actions@.len() == i,
                    started@.len() == i,
                    forall|k: int| 0 <= k < i ==> action_starts(
                        #[trigger] actions@[k],
                        self.projects@[k].0@,
                        self.projects@[k].1@,
                    ),
                    forall|k: int| 0 <= k < i ==> started.deep_view()[k] == self.projects@[k].0@,
                decreases n - i,
            {
                actions.push(
                    WatchAction::Start(self.projects[i].0.clone(), self.projects[i].1.clone()),
                );
                let ghost pre = started.deep_view();
                started.push(self.projects[i].0.clone());
                proof {
                    assert(started.deep_view() =~= pre.push(self.projects@[i as int].0@));
                }
                i += 1;
            }
            self.watching = started;
            self.enabled = true;
            proof {
                assert(self.watching.deep_view() =~= reg_keys(self.projects@));
            }
            (actions, true, self.projects.len())
        }
    }

    /// Record that a watcher failed to start, so the repository is no
    /// longer listed as watched.
    pub fn mark_not_watching(&mut self, repo: &str)
        requires
            old(self).wf(),
        ensures
            final(self).wf(),
            final(self).watching.deep_view() == unlisted(old(self).watching.deep_view(), repo@),
            final(self).enabled == old(self).enabled,
            final(self).projects == old(self).projects,
    {
        self.unlist(repo);
    }

    /// A snapshot of the switch and of every project with its watching
    /// flag.
    #[verifier::loop_isolation(false)]
    pub fn get_watch_status(&self) -> (r: (bool, Vec<(String, String, bool)>))
        ensures
            r.0 == self.enabled,
            r.1@.len() == self.projects@.len(),
            forall|k: int| 0 <= k < r.1@.len() ==> (#[trigger] r.1@[k]).0@
                == self.projects@[k].0@ && r.1@[k].1@ == self.projects@[k].1@ && r.1@[k].2
                == listed(self.watching.deep_view(), self.projects@[k].0@),
    {
        let n = self.projects.len();
        let mut out: Vec<(String, String, bool)> = Vec::new();
        let mut i: usize = 0;
        while i < n
            invariant
                i <= n,
                n == self.projects@.len(),
                out@.len() == i,
                forall|k: int| 0 <= k < i ==> (#[trigger] out@[k]).0@ == self.projects@[k].0@
                    && out@[k].1@ == self.projects@[k].1@ && out@[k].2 == listed(
                    self.watching.deep_view(),
                    self.projects@[k].0@,
                ),
            decreases n - i,
        {
            let watching = self.is_watching(self.projects[i].0.as_str());
            out.push((self.projects[i].0.clone(), self.projects[i].1.clone(), watching));
            i += 1;
        }
        (self.enabled, out)
    }

    /// The stop actions of a graceful shutdown: one for every running
    /// watcher, in order. The caller then writes each project's shutdown
    /// marker.
    #[verifier::loop_isolation(false)]
    pub fn shutdown_actions(&self) -> (r: Vec<WatchAction>)
        ensures
            r@.len() == self.watching@.len(),
            forall|k: int| 0 <= k < r@.len() ==> action_stops(
                #[trigger] r@[k],
                self.watching.deep_view()[k],
            ),
    {
        let n = self.watching.len();
        let mut actions: Vec<WatchAction> = Vec::new();
        let mut i: usize = 0;
        while i < n
            invariant
                i <= n,
                n == self.watching@.len(),
                actions@.len() == i,
                forall|k: int| 0 <= k < i ==> action_stops(
                    #[trigger] actions@[k],
                    self.watching.deep_view()[k],
                ),
            decreases n - i,
        {
            actions.push(WatchAction::Stop(self.watching[i].clone()));
            i += 1;
        }
        actions
    }
}

} // verus!
