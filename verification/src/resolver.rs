//! The repository resolver: URL normalization and the ranking of local
//! clone candidates. The surrounding process enumerates the home
//! directory, runs the version-control commands and hands their outputs
//! in as plain values; this module decides which clone stands for which
//! requested repository.

use vstd::prelude::*;
use crate::strutil;
use crate::sync::{strip_git, strip_git_suffix};

verus! {

/// `s` with every occurrence of `from` replaced by `to`, scanning left to
/// right without overlap; an empty `from` leaves `s` unchanged.
pub open spec fn replace_all(s: Seq<char>, from: Seq<char>, to: Seq<char>) -> Seq<char>
    decreases s.len(),
{
    if from.len() == 0 {
        s
    } else if s.len() == 0 {
        s
    } else if from.is_prefix_of(s) {
        to + replace_all(s.skip(from.len() as int), from, to)
    } else {
        seq![s.first()] + replace_all(s.drop_first(), from, to)
    }
}

/// A region with no occurrence of the pattern passes through a
/// replacement unchanged.
proof fn lemma_replace_all_no_match(s: Seq<char>, from: Seq<char>, to: Seq<char>, upto: int)
    requires
        from.len() > 0,
        0 <= upto <= s.len(),
        forall|k: int| 0 <= k < upto ==> !strutil::occurs_at(s, from, k),
    ensures
        replace_all(s, from, to) == s.take(upto) + replace_all(s.skip(upto), from, to),
    decreases upto,
{
    if upto == 0 {
        assert(s.take(0) =~= Seq::<char>::empty());
        assert(s.skip(0) =~= s);
        assert(s.take(0) + replace_all(s, from, to) =~= replace_all(s, from, to));
    } else {
        assert(!strutil::occurs_at(s, from, 0));
        assert(!from.is_prefix_of(s)) by {
            if from.is_prefix_of(s) {
                assert(s.subrange(0, from.len() as int) =~= from);
            }
        }
        assert forall|k: int| 0 <= k < upto - 1 implies !strutil::occurs_at(
            s.drop_first(),
            from,
            k,
        ) by {
            if strutil::occurs_at(s.drop_first(), from, k) {
                assert(s.subrange(k + 1, k + 1 + from.len()) =~= s.drop_first().subrange(
                    k,
                    k + from.len(),
                ));
                assert(strutil::occurs_at(s, from, k + 1));
            }
        };
        lemma_replace_all_no_match(s.drop_first(), from, to, upto - 1);
        assert(s.drop_first().skip(upto - 1) =~= s.skip(upto));
        assert(seq![s.first()] + (s.drop_first().take(upto - 1) + replace_all(
            s.skip(upto),
            from,
            to,
        )) =~= s.take(upto) + replace_all(s.skip(upto), from, to));
    }
}

/// Replace every occurrence of `from` in `s` by `to`.
#[verifier::loop_isolation(false)]
#[verifier::rlimit(30)]
pub fn replace_all_str(s: &str, from: &str, to: &str) -> (r: String)
    ensures
        r@ == replace_all(s@, from@, to@),
{
    let n = from.unicode_len();
    let m = s.unicode_len();
    if n == 0 {
        return s.to_owned();
    }
    let mut out = String::new();
    let mut i: usize = 0;
    proof {
        assert(s@.skip(0) =~= s@);
        assert(out@ + replace_all(s@, from@, to@) =~= replace_all(s@, from@, to@));
    }
    while i < m
        invariant
            i <= m,
            m == s@.len(),
            n == from@.len(),
            n > 0,
            replace_all(s@, from@, to@) == out@ + replace_all(s@.skip(i as int), from@, to@),
        decreases m - i,
    {
        let ghost pre = out@;
        let ghost suffix = s@.skip(i as int);
        if n <= m - i && strutil::match_at(s, from, i) {
            out.append(to);
            proof {
                assert(from@.is_prefix_of(suffix)) by {
                    assert(suffix.subrange(0, n as int) =~= s@.subrange(i as int, i + n));
                }
                assert(suffix.skip(n as int) =~= s@.skip(i + n));
                assert(pre + (to@ + replace_all(s@.skip(i + n), from@, to@)) =~= out@
                    + replace_all(s@.skip(i + n), from@, to@));
            }
            i += n;
        } else {
            out.append(s.substring_char(i, i + 1));
            proof {
                assert(!from@.is_prefix_of(suffix)) by {
                    if from@.is_prefix_of(suffix) {
                        assert(s@.subrange(i as int, i + n) =~= suffix.subrange(0, n as int));
                        assert(strutil::occurs_at(s@, from@, i as int));
                    }
                }
                assert(suffix.first() == s@[i as int]);
                assert(suffix.drop_first() =~= s@.skip(i + 1));
                assert(s@.subrange(i as int, i + 1) =~= seq![s@[i as int]]);
                assert(pre + (seq![suffix.first()] + replace_all(s@.skip(i + 1), from@, to@))
                    =~= out@ + replace_all(s@.skip(i + 1), from@, to@));
            }
            i += 1;
        }
    }
    proof {
        assert(s@.skip(m as int).len() == 0);
        assert(out@ + replace_all(s@.skip(m as int), from@, to@) =~= out@);
    }
    out
}

/// Named result of `str::to_lowercase`: the lowercase form of a text, a
/// function of its characters alone.
pub uninterp spec fn lower_of(s: Seq<char>) -> Seq<char>;

/// Relies on `str::to_lowercase`: the result depends on the characters
/// alone.
#[verifier::external_body]
fn lowercase(s: &str) -> (r: String)
    ensures
        r@ == lower_of(s@),
{
    s.to_lowercase()
}

/// The normalized form of a repository URL, the form candidates are
/// matched under: the `.git` suffix removed, the SSH prefix rewritten to
/// HTTPS, and the whole lowered.
pub open spec fn normalized_url(u: Seq<char>) -> Seq<char> {
    lower_of(replace_all(strip_git_suffix(u), "git@github.com:"@, "https://github.com/"@))
}

/// The `owner/name` drawn from a requested URL, case preserved: the
/// `.git` suffix removed, the SSH prefix rewritten, and the HTTPS prefix
/// dropped.
pub open spec fn requested_repo_name(u: Seq<char>) -> Seq<char> {
    replace_all(
        replace_all(strip_git_suffix(u), "git@github.com:"@, "https://github.com/"@),
        "https://github.com/"@,
        ""@,
    )
}

/// Normalize a repository URL for matching.
pub fn normalize_repo_url(url: &str) -> (r: String)
    ensures
        r@ == normalized_url(url@),
{
    let stripped = strip_git(url);
    let rewritten = replace_all_str(stripped, "git@github.com:", "https://github.com/");
    lowercase(rewritten.as_str())
}

/// The case-preserved `owner/name` of a requested URL.
pub fn repo_name_of_url(url: &str) -> (r: String)
    ensures
        r@ == requested_repo_name(url@),
{
    let stripped = strip_git(url);
    let rewritten = replace_all_str(stripped, "git@github.com:", "https://github.com/");
    replace_all_str(rewritten.as_str(), "https://github.com/", "")
}

/// A local clone candidate: the URL of its `origin` remote, its project
/// directory, and the epoch-second stamp of its newest commit.
#[derive(Debug, Clone)]
pub struct RepoCandidate {
    pub remote_url: String,
    pub project_dir: String,
    pub commit_ts: i64,
}

/// Mathematical image of a candidate.
pub struct RepoCandidateV {
    pub remote_url: Seq<char>,
    pub project_dir: Seq<char>,
    pub commit_ts: i64,
}

impl DeepView for RepoCandidate {
    type V = RepoCandidateV;

    open spec fn deep_view(&self) -> RepoCandidateV {
        RepoCandidateV {
            remote_url: self.remote_url@,
            project_dir: self.project_dir@,
            commit_ts: self.commit_ts,
        }
    }
}

/// The repository name of the first requested URL that matches a
/// candidate's remote under normalization.
pub open spec fn match_name(remote: Seq<char>, urls: Seq<Seq<char>>) -> Option<Seq<char>>
    decreases urls.len(),
{
    if urls.len() == 0 {
        None
    } else if normalized_url(remote) == normalized_url(urls.first()) {
        Some(requested_repo_name(urls.first()))
    } else {
        match_name(remote, urls.drop_first())
    }
}

/// One resolved entry: a repository name, the chosen directory, and the
/// stamp of its newest commit.
pub struct ResolvedV {
    pub name: Seq<char>,
    pub dir: Seq<char>,
    pub ts: i64,
}

/// Record a candidate for a name: a new name is appended; a known name
/// keeps its entry unless the candidate's commit stamp is strictly newer.
pub open spec fn record_candidate(
    acc: Seq<ResolvedV>,
    name: Seq<char>,
    dir: Seq<char>,
    ts: i64,
) -> Seq<ResolvedV>
    decreases acc.len(),
{
    if acc.len() == 0 {
        seq![ResolvedV { name, dir, ts }]
    } else if acc.first().name == name {
        if ts > acc.first().ts {
            seq![ResolvedV { name, dir, ts }] + acc.drop_first()
        } else {
            acc
        }
    } else {
        seq![acc.first()] + record_candidate(acc.drop_first(), name, dir, ts)
    }
}

/// The resolved entries after folding the candidates, in input order,
/// over the requested URLs.
pub open spec fn resolve_fold(
    acc: Seq<ResolvedV>,
    cands: Seq<RepoCandidateV>,
    urls: Seq<Seq<char>>,
) -> Seq<ResolvedV>
    decreases cands.len(),
{
    if cands.len() == 0 {
        acc
    } else {
        let next = match match_name(cands.first().remote_url, urls) {
            None => acc,
            Some(nm) => record_candidate(
                acc,
                nm,
                cands.first().project_dir,
                cands.first().commit_ts,
            ),
        };
        resolve_fold(next, cands.drop_first(), urls)
    }
}

/// The `repo_full_name → directory` pairs the resolver reports.
pub open spec fn resolved_pairs(entries: Seq<ResolvedV>) -> Seq<(Seq<char>, Seq<char>)> {
    entries.map_values(|e: ResolvedV| (e.name, e.dir))
}

/// Recording a candidate at the first-match position: the keyed entry is
/// replaced when the stamp is strictly newer, every other entry is
/// untouched, and a fresh name lands at the end.
proof fn lemma_record_at(acc: Seq<ResolvedV>, i: int, name: Seq<char>, dir: Seq<char>, ts: i64)
    requires
        0 <= i < acc.len(),
        acc[i].name == name,
        forall|j: int| 0 <= j < i ==> acc[j].name != name,
    ensures
        ts > acc[i].ts ==> record_candidate(acc, name, dir, ts) == acc.update(
            i,
            (ResolvedV { name, dir, ts }),
        ),
        !(ts > acc[i].ts) ==> record_candidate(acc, name, dir, ts) == acc,
    decreases acc.len(),
{
    if i == 0 {
        if ts > acc[0].ts {
            assert(seq![ResolvedV { name, dir, ts }] + acc.drop_first() =~= acc.update(
                0,
                (ResolvedV { name, dir, ts }),
            ));
        }
    } else {
        assert forall|j: int| 0 <= j < i - 1 implies acc.drop_first()[j].name != name by {
            assert(acc[j + 1].name != name);
        };
        lemma_record_at(acc.drop_first(), i - 1, name, dir, ts);
        if ts > acc[i].ts {
            assert(seq![acc.first()] + acc.drop_first().update(
                i - 1,
                (ResolvedV { name, dir, ts }),
            ) =~= acc.update(i, (ResolvedV { name, dir, ts })));
        } else {
            assert(seq![acc.first()] + acc.drop_first() =~= acc);
        }
    }
}

/// Recording a fresh name appends it.
proof fn lemma_record_absent(acc: Seq<ResolvedV>, name: Seq<char>, dir: Seq<char>, ts: i64)
    requires
        forall|j: int| 0 <= j < acc.len() ==> acc[j].name != name,
    ensures
        record_candidate(acc, name, dir, ts) == acc.push(ResolvedV { name, dir, ts }),
    decreases acc.len(),
{
    if acc.len() == 0 {
        assert(seq![ResolvedV { name, dir, ts }] =~= acc.push(ResolvedV { name, dir, ts }));
    } else {
        lemma_record_absent(acc.drop_first(), name, dir, ts);
        assert(seq![acc.first()] + acc.drop_first().push(ResolvedV { name, dir, ts }) =~= acc.push(
            ResolvedV { name, dir, ts },
        ));
    }
}

/// Resolve the requested repositories against the local candidates: each
/// candidate is matched by normalized URL against the requested list, and
/// for every matched name the directory of the candidate with the newest
/// commit stamp wins, the earlier one on ties. Returns
/// `(repo_full_name, directory)` pairs, names in first-match order.
#[verifier::loop_isolation(false)]
#[verifier::rlimit(30)]
pub fn resolve_local_paths(candidates: &Vec<RepoCandidate>, repo_urls: &Vec<String>) -> (r: Vec<
    (String, String),
>)
    ensures
        r.deep_view() == resolved_pairs(
            resolve_fold(Seq::empty(), candidates.deep_view(), repo_urls.deep_view()),
        ),
{
    let nc = candidates.len();
    let mut acc: Vec<(String, String, i64)> = Vec::new();
    let ghost accv0 = Seq::new(acc@.len(), |k: int| ResolvedV {
        name: acc@[k].0@,
        dir: acc@[k].1@,
        ts: acc@[k].2,
    });
    let mut i: usize = 0;
    proof {
        assert(candidates.deep_view().skip(0) =~= candidates.deep_view());
        assert(accv0 =~= Seq::<ResolvedV>::empty());
    }
    while i < nc
        invariant
            i <= nc,
            nc == candidates@.len(),
            resolve_fold(Seq::empty(), candidates.deep_view(), repo_urls.deep_view())
                == resolve_fold(
                Seq::new(acc@.len(), |k: int| ResolvedV {
                    name: acc@[k].0@,
                    dir: acc@[k].1@,
                    ts: acc@[k].2,
                }),
                candidates.deep_view().skip(i as int),
                repo_urls.deep_view(),
            ),
        decreases nc - i,
    {
        let ghost accv = Seq::new(acc@.len(), |k: int| ResolvedV {
            name: acc@[k].0@,
            dir: acc@[k].1@,
            ts: acc@[k].2,
        });
        let cand = &candidates[i];
        let norm_remote = normalize_repo_url(cand.remote_url.as_str());
        let nu = repo_urls.len();
        let mut matched: Option<String> = None;
        let mut j: usize = 0;
        proof {
            assert(repo_urls.deep_view().skip(0) =~= repo_urls.deep_view());
        }
        while j < nu && matched.is_none()
            invariant
                j <= nu,
                nu == repo_urls@.len(),
                matched is None ==> match_name(cand.remote_url@, repo_urls.deep_view())
                    == match_name(cand.remote_url@, repo_urls.deep_view().skip(j as int)),
                matched matches Some(nm) ==> match_name(cand.remote_url@, repo_urls.deep_view())
                    == Some(nm@),
                norm_remote@ == normalized_url(cand.remote_url@),
            decreases nu - j + (if matched is None {
                1int
            } else {
                0int
            }),
        {
            let norm_url = normalize_repo_url(repo_urls[j].as_str());
            proof {
                assert(repo_urls.deep_view().skip(j as int).first() == repo_urls@[j as int]@);
                assert(repo_urls.deep_view().skip(j as int).drop_first()
                    =~= repo_urls.deep_view().skip(j + 1));
            }
            if strutil::str_eq(norm_remote.as_str(), norm_url.as_str()) {
                matched = Some(repo_name_of_url(repo_urls[j].as_str()));
            } else {
                j += 1;
            }
        }
        match matched {
            Some(nm) => {
                let na = acc.len();
                let mut k: usize = 0;
                let mut placed = false;
                while k < na && !placed
                    invariant
                        k <= na,
                        na == acc@.len(),
                        !placed ==> acc@.len() == accv.len(),
                        !placed ==> Seq::new(acc@.len(), |x: int| ResolvedV {
                            name: acc@[x].0@,
                            dir: acc@[x].1@,
                            ts: acc@[x].2,
                        }) == accv,
                        !placed ==> forall|x: int| 0 <= x < k ==> accv[x].name != nm@,
                        placed ==> Seq::new(acc@.len(), |x: int| ResolvedV {
                            name: acc@[x].0@,
                            dir: acc@[x].1@,
                            ts: acc@[x].2,
                        }) == record_candidate(accv, nm@, cand.project_dir@, cand.commit_ts),
                    decreases na - k + (if placed {
                        0int
                    } else {
                        1int
                    }),
                {
                    if strutil::str_eq(acc[k].0.as_str(), nm.as_str()) {
                        if cand.commit_ts > acc[k].2 {
                            let entry = (nm.clone(), cand.project_dir.clone(), cand.commit_ts);
                            acc.set(k, entry);
                        }
                        proof {
                            lemma_record_at(accv, k as int, nm@, cand.project_dir@, cand.commit_ts);
                            assert(Seq::new(acc@.len(), |x: int| ResolvedV {
                                name: acc@[x].0@,
                                dir: acc@[x].1@,
                                ts: acc@[x].2,
                            }) =~= record_candidate(accv, nm@, cand.project_dir@, cand.commit_ts));
                        }
                        placed = true;
                    } else {
                        k += 1;
                    }
                }
                if !placed {
                    acc.push((nm, cand.project_dir.clone(), cand.commit_ts));
                    proof {
                        lemma_record_absent(accv, nm@, cand.project_dir@, cand.commit_ts);
                        assert(Seq::new(acc@.len(), |x: int| ResolvedV {
                            name: acc@[x].0@,
                            dir: acc@[x].1@,
                            ts: acc@[x].2,
                        }) =~= record_candidate(accv, nm@, cand.project_dir@, cand.commit_ts));
                    }
                }
            },
            None => {},
        }
        proof {
            assert(candidates.deep_view().skip(i as int).first() == candidates@[i as int].deep_view());
            assert(candidates.deep_view().skip(i as int).drop_first() =~= candidates.deep_view().skip(
                i + 1,
            ));
        }
        i += 1;
    }
    proof {
        assert(candidates.deep_view().skip(nc as int).len() == 0);
    }
    let na = acc.len();
    let mut out: Vec<(String, String)> = Vec::new();
    let mut k: usize = 0;
    while k < na
        invariant
            k <= na,
            na == acc@.len(),
            out@.len() == k,
            forall|x: int| 0 <= x < k ==> (#[trigger] out@[x]).0@ == acc@[x].0@ && out@[x].1@
                == acc@[x].1@,
        decreases na - k,
    {
        out.push((acc[k].0.clone(), acc[k].1.clone()));
        k += 1;
    }
    proof {
        let entries = Seq::new(acc@.len(), |x: int| ResolvedV {
            name: acc@[x].0@,
            dir: acc@[x].1@,
            ts: acc@[x].2,
        });
        assert(out.deep_view() =~= resolved_pairs(entries));
    }
    out
}

} // verus!
