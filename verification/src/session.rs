//! Per-repository session data: the execution contract, the session record
//! with its running counters, and the shutdown-timestamp round trip.

use vstd::prelude::*;

verus! {

/// Per-repository execution contract: a whitelist of allowed path patterns.
/// An empty `allowed_paths` means the repository is unrestricted.
/// `allowed_commands` is carried but not yet enforced.
#[derive(Debug, Clone)]
pub struct ExecutionContract {
    pub allowed_paths: Vec<String>,
    pub allowed_commands: Vec<String>,
}

impl Default for ExecutionContract {
    /// The default contract is unrestricted: both lists are empty.
    fn default() -> (r: Self)
        ensures
            r.allowed_paths@.len() == 0,
            r.allowed_commands@.len() == 0,
    {
        ExecutionContract { allowed_paths: Vec::new(), allowed_commands: Vec::new() }
    }
}

/// A per-repository session record, mirrored from `.orchestrator/session.json`.
#[derive(Debug, Clone)]
pub struct Session {
    pub session_id: String,
    pub agent_type: String,
    pub task_name: String,
    pub files_changed: u64,
    pub commits_detected: u64,
    pub execution_contract: Option<ExecutionContract>,
}

impl Session {
    /// Replace the running counters; every other field is preserved.
    pub fn update_stats(&mut self, files_changed: u64, commits_detected: u64)
        ensures
            final(self).files_changed == files_changed,
            final(self).commits_detected == commits_detected,
            final(self).session_id == old(self).session_id,
            final(self).agent_type == old(self).agent_type,
            final(self).task_name == old(self).task_name,
            final(self).execution_contract == old(self).execution_contract,
    {
        self.files_changed = files_changed;
        self.commits_detected = commits_detected;
    }
}

/// The `.orchestrator` directory under a project root.
pub fn orchestrator_dir(project_path: &str) -> (r: String)
    ensures
        r@ == project_path@ + "/.orchestrator"@,
{
    let mut r = project_path.to_owned();
    r.append("/.orchestrator");
    r
}

/// The session file under a project root.
pub fn session_file(project_path: &str) -> (r: String)
    ensures
        r@ == project_path@ + "/.orchestrator"@ + "/session.json"@,
{
    let mut r = orchestrator_dir(project_path);
    r.append("/session.json");
    r
}

/// The shutdown-marker file under a project root.
pub fn shutdown_file(project_path: &str) -> (r: String)
    ensures
        r@ == project_path@ + "/.orchestrator"@ + "/last_shutdown"@,
{
    let mut r = orchestrator_dir(project_path);
    r.append("/last_shutdown");
    r
}

/// The first epoch second of year 1, the earliest instant the shutdown
/// marker represents.
pub const MIN_SHUTDOWN_SECS: i64 = -62135596800;

/// The first epoch second of year 10000, one past the latest instant the
/// shutdown marker represents.
pub const MAX_SHUTDOWN_SECS: i64 = 253402300800;

/// An epoch-second count the shutdown marker can represent.
pub open spec fn shutdown_secs_in_range(secs: i64) -> bool {
    MIN_SHUTDOWN_SECS <= secs < MAX_SHUTDOWN_SECS
}

/// Named result of chrono's RFC 3339 rendering of a UTC instant at
/// whole-second precision: a function of the epoch-second count alone.
pub uninterp spec fn rfc3339_utc_of(secs: int) -> Seq<char>;

/// Relies on `chrono::DateTime::<Utc>::from_timestamp` and
/// `DateTime::to_rfc3339`: an in-range epoch-second count with zero
/// subseconds renders as its RFC 3339 form, a function of the count alone.
#[verifier::external_body]
fn chrono_format_rfc3339(secs: i64) -> (r: String)
    requires
        shutdown_secs_in_range(secs),
    ensures
        r@ == rfc3339_utc_of(secs as int),
{
    match chrono::DateTime::<chrono::Utc>::from_timestamp(secs, 0) {
        Some(d) => d.to_rfc3339(),
        None => String::new(),
    }
}

/// Relies on `str::parse::<chrono::DateTime<chrono::Utc>>` (chrono's
/// relaxed RFC 3339 parser) and `DateTime::timestamp`: parsing the
/// RFC 3339 form of an in-range instant yields that instant's second count
/// back; a malformed string yields nothing. The text is trimmed first, as
/// the stored marker may carry surrounding whitespace.
#[verifier::external_body]
fn chrono_parse_rfc3339(s: &str) -> (r: Option<i64>)
    ensures
        forall|t: i64| shutdown_secs_in_range(t) && s@ == rfc3339_utc_of(t as int) ==> r == Some(t),
{
    s.trim().parse::<chrono::DateTime<chrono::Utc>>().ok().map(|d| d.timestamp())
}

/// The RFC 3339 text written to the shutdown marker for an instant, or
/// `None` when the instant is outside the representable range.
pub fn format_shutdown_timestamp(now_secs: i64) -> (r: Option<String>)
    ensures
        r matches Some(s) ==> shutdown_secs_in_range(now_secs) && s@ == rfc3339_utc_of(
            now_secs as int,
        ),
        r is None <==> !shutdown_secs_in_range(now_secs),
{
    if MIN_SHUTDOWN_SECS <= now_secs && now_secs < MAX_SHUTDOWN_SECS {
        Some(chrono_format_rfc3339(now_secs))
    } else {
        None
    }
}

/// The instant recorded in the shutdown-marker text, or `None` when the
/// text is malformed. Reading back a written marker yields the instant
/// that was written.
pub fn parse_shutdown_timestamp(s: &str) -> (r: Option<i64>)
    ensures
        forall|t: i64| shutdown_secs_in_range(t) && s@ == rfc3339_utc_of(t as int) ==> r == Some(t),
{
    chrono_parse_rfc3339(s)
}

/// Law: the shutdown marker round-trips — formatting an in-range instant
/// and parsing the text back yields the same instant, to second precision.
pub fn shutdown_round_trip(now_secs: i64) -> (r: Option<i64>)
    requires
        shutdown_secs_in_range(now_secs),
    ensures
        r == Some(now_secs),
{
    let text = match format_shutdown_timestamp(now_secs) {
        Some(t) => t,
        None => {
            return None;
        },
    };
    parse_shutdown_timestamp(text.as_str())
}

} // verus!
