//! The contract enforcer: a stateless checker of relative paths against the
//! glob-pattern whitelist of an execution contract.

use vstd::prelude::*;
use crate::session::ExecutionContract;
use crate::strutil;

verus! {

/// Whether a pattern string compiles as a glob. Named result of
/// `glob::Pattern::new` succeeding; a function of the pattern alone.
pub uninterp spec fn glob_pattern_valid(pat: Seq<char>) -> bool;

/// Whether a compiled glob pattern matches a path. Named result of
/// `glob::Pattern::matches`; a function of the two strings alone.
pub uninterp spec fn glob_matches(pat: Seq<char>, path: Seq<char>) -> bool;

/// Relies on `glob::Pattern::new` and `glob::Pattern::matches`: whether a
/// pattern compiles, and whether it then matches a path, are pure functions
/// of the pattern and path strings.
#[verifier::external_body]
fn glob_try_match(pattern: &str, path: &str) -> (r: Option<bool>)
    ensures
        r is Some <==> glob_pattern_valid(pattern@),
        r matches Some(b) ==> b == glob_matches(pattern@, path@),
{
    match glob::Pattern::new(pattern) {
        Ok(p) => Some(p.matches(path)),
        Err(_) => None,
    }
}

/// A single pattern admits a path if it glob-matches, falling back to a
/// literal prefix match when the pattern does not compile as a glob.
pub open spec fn pattern_allows(pat: Seq<char>, path: Seq<char>) -> bool {
    if glob_pattern_valid(pat) {
        glob_matches(pat, path)
    } else {
        pat.is_prefix_of(path)
    }
}

/// A pattern set admits a path if it is empty (unrestricted) or some pattern
/// admits the path.
pub open spec fn contract_allows(patterns: Seq<String>, path: Seq<char>) -> bool {
    patterns.len() == 0 || exists|i: int|
        0 <= i < patterns.len() && pattern_allows(patterns[i]@, path)
}

/// A reported contract violation: the offending path and a readable reason.
#[derive(Debug, Clone)]
pub struct Violation {
    pub path: String,
    pub reason: String,
}

/// Stateless path-vs-whitelist checker, constructed from one contract.
pub struct ContractEnforcer {
    pub contract: ExecutionContract,
}

impl ContractEnforcer {
    pub fn new(contract: ExecutionContract) -> (r: Self)
        ensures
            r.contract == contract,
    {
        ContractEnforcer { contract }
    }

    /// A contract is in force exactly when the whitelist is non-empty.
    pub fn has_contract(&self) -> (r: bool)
        ensures
            r == (self.contract.allowed_paths@.len() > 0),
    {
        self.contract.allowed_paths.len() > 0
    }

    /// Check a relative path against the whitelist. Returns `None` exactly
    /// when the contract admits the path; otherwise a violation naming it.
    pub fn check_path(&self, relative_path: &str) -> (r: Option<Violation>)
        ensures
            r is None <==> contract_allows(self.contract.allowed_paths@, relative_path@),
            r matches Some(v) ==> v.path@ == relative_path@ && v.reason@ == "path '"@
                + relative_path@ + "' is not in the allowed paths"@,
    {
        if !self.has_contract() {
            return None;
        }
        let n = self.contract.allowed_paths.len();
        let mut i: usize = 0;
        while i < n
            invariant
                i <= n,
                n == self.contract.allowed_paths@.len(),
                forall|j: int| 0 <= j < i ==> !pattern_allows(
                    self.contract.allowed_paths@[j]@,
                    relative_path@,
                ),
            decreases n - i,
        {
            let pat = &self.contract.allowed_paths[i];
            let matched = match glob_try_match(pat.as_str(), relative_path) {
                Some(b) => b,
                None => strutil::starts_with(relative_path, pat.as_str()),
            };
            if matched {
                return None;
            }
            i += 1;
        }
        let mut reason = "path '".to_owned();
        reason.append(relative_path);
        reason.append("' is not in the allowed paths");
        Some(Violation { path: relative_path.to_owned(), reason })
    }
}

/// Law: an empty whitelist places no restriction — every path is allowed, so
/// `check_path` reports no violation for any path.
pub proof fn lemma_empty_contract_allows_all(patterns: Seq<String>, path: Seq<char>)
    requires
        patterns.len() == 0,
    ensures
        contract_allows(patterns, path),
{
}

/// Law: a non-empty whitelist admits a path exactly when some pattern admits
/// it — by glob match when the pattern compiles, by literal prefix match
/// otherwise.
pub proof fn lemma_contract_allows_characterization(patterns: Seq<String>, path: Seq<char>)
    requires
        patterns.len() > 0,
    ensures
        contract_allows(patterns, path) <==> exists|i: int|
            0 <= i < patterns.len() && pattern_allows(patterns[i]@, path),
{
}

} // verus!
