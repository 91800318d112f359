//! Offline-change reconciliation: fuse the paths named by a repository
//! diff with the files whose modification time postdates the recorded
//! shutdown instant. The surrounding process runs the diff command and
//! walks the filesystem; this module makes every decision about what the
//! results mean.

use vstd::prelude::*;
use crate::session;
use crate::strutil;

verus! {

/// What changed while the daemon was down.
#[derive(Debug, Clone)]
pub struct OfflineChanges {
    /// Paths named by the repository diff (uncommitted changes).
    pub git_changes: Vec<String>,
    /// Relative paths of files modified after the recorded shutdown.
    pub timestamp_changes: Vec<String>,
    /// The recorded shutdown instant, in RFC 3339 form.
    pub last_shutdown: Option<String>,
}

/// One file met during the walk: its repository-relative path and its
/// modification time in epoch seconds.
#[derive(Debug, Clone)]
pub struct FileStamp {
    pub relative_path: String,
    pub mtime_secs: i64,
}

/// A directory name the offline walk never descends into.
pub open spec fn offline_skipped_name(name: Seq<char>) -> bool {
    ||| name == "node_modules"@
    ||| name == ".git"@
    ||| name == "dist"@
    ||| name == "build"@
    ||| name == ".next"@
    ||| name == "target"@
    ||| name == ".orchestrator"@
}

/// Whether the walk skips an entry of this name.
pub fn offline_walk_skips(name: &str) -> (r: bool)
    ensures
        r == offline_skipped_name(name@),
{
    strutil::str_eq(name, "node_modules") || strutil::str_eq(name, ".git") || strutil::str_eq(
        name,
        "dist",
    ) || strutil::str_eq(name, "build") || strutil::str_eq(name, ".next") || strutil::str_eq(
        name,
        "target",
    ) || strutil::str_eq(name, ".orchestrator")
}

/// The non-empty lines of a diff listing.
pub open spec fn nonempty_lines(lines: Seq<Seq<char>>) -> Seq<Seq<char>>
    decreases lines.len(),
{
    if lines.len() == 0 {
        Seq::empty()
    } else {
        let rest = nonempty_lines(lines.drop_last());
        if lines.last().len() > 0 {
            rest.push(lines.last())
        } else {
            rest
        }
    }
}

/// The paths named by the diff output: its non-empty lines, in order, or
/// nothing when the diff command failed.
pub open spec fn git_changes_spec(ok: bool, stdout: Seq<char>) -> Seq<Seq<char>> {
    if ok {
        nonempty_lines(strutil::spec_lines(stdout))
    } else {
        Seq::empty()
    }
}

/// The relative paths of the files modified strictly after `since`, in
/// walk order.
pub open spec fn stamps_after(files: Seq<FileStamp>, since: i64) -> Seq<Seq<char>>
    decreases files.len(),
{
    if files.len() == 0 {
        Seq::empty()
    } else {
        let rest = stamps_after(files.drop_last(), since);
        if files.last().mtime_secs > since {
            rest.push(files.last().relative_path@)
        } else {
            rest
        }
    }
}

/// The paths named by a diff listing: its non-empty lines when the command
/// succeeded, nothing otherwise.
#[verifier::loop_isolation(false)]
pub fn git_changes_from_diff(ok: bool, stdout: &str) -> (r: Vec<String>)
    ensures
        r.deep_view() == git_changes_spec(ok, stdout@),
{
    if !ok {
        return Vec::new();
    }
    let lines = strutil::split_lines(stdout);
    let n = lines.len();
    let mut out: Vec<String> = Vec::new();
    let mut i: usize = 0;
    while i < n
        invariant
            i <= n,
            n == lines@.len(),
            out.deep_view() == nonempty_lines(lines.deep_view().take(i as int)),
        decreases n - i,
    {
        if !lines[i].as_str().is_empty() {
            out.push(lines[i].clone());
        }
        proof {
            assert(lines.deep_view().take(i + 1).drop_last() =~= lines.deep_view().take(i as int));
            assert(lines.deep_view().take(i + 1).last() == lines@[i as int]@);
            assert(out.deep_view() =~= nonempty_lines(lines.deep_view().take(i + 1)));
        }
        i += 1;
    }
    proof {
        assert(lines.deep_view().take(n as int) =~= lines.deep_view());
    }
    out
}

/// Fuse the diff result, the walked file stamps and the recorded shutdown
/// instant into the offline-change report: the diff's non-empty lines; the
/// files modified strictly after the shutdown (none when no shutdown is
/// recorded); and the shutdown instant rendered in RFC 3339 form.
#[verifier::loop_isolation(false)]
pub fn detect_offline_changes(
    git_ok: bool,
    git_stdout: &str,
    files: &Vec<FileStamp>,
    last_shutdown_secs: Option<i64>,
) -> (r: OfflineChanges)
    ensures
        r.git_changes.deep_view() == git_changes_spec(git_ok, git_stdout@),
        match last_shutdown_secs {
            Some(t) => r.timestamp_changes.deep_view() == stamps_after(files@, t) && (
            session::shutdown_secs_in_range(t) ==> (r.last_shutdown matches Some(s) && s@
                == session::rfc3339_utc_of(t as int))) && (!session::shutdown_secs_in_range(t)
                ==> r.last_shutdown is None),
            None => r.timestamp_changes.deep_view().len() == 0 && r.last_shutdown is None,
        },
{
    let git_changes = git_changes_from_diff(git_ok, git_stdout);
    let timestamp_changes: Vec<String> = match last_shutdown_secs {
        Some(t) => {
            let n = files.len();
            let mut out: Vec<String> = Vec::new();
            let mut i: usize = 0;
            while i < n
                invariant
                    i <= n,
                    n == files@.len(),
                    out.deep_view() == stamps_after(files@.take(i as int), t),
                decreases n - i,
            {
                if files[i].mtime_secs > t {
                    out.push(files[i].relative_path.clone());
                }
                proof {
                    assert(files@.take(i + 1).drop_last() =~= files@.take(i as int));
                    assert(files@.take(i + 1).last() == files@[i as int]);
                    assert(out.deep_view() =~= stamps_after(files@.take(i + 1), t));
                }
                i += 1;
            }
            proof {
                assert(files@.take(n as int) =~= files@);
            }
            out
        },
        None => Vec::new(),
    };
    let last_shutdown = match last_shutdown_secs {
        Some(t) => session::format_shutdown_timestamp(t),
        None => None,
    };
    OfflineChanges { git_changes, timestamp_changes, last_shutdown }
}

} // verus!
