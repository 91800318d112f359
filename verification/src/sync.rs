//! The sync client's logic: `.env` parsing and configuration lookup,
//! repository-name extraction from the git configuration text, the wire
//! payload and event records, acceptance classification of the remote's
//! answers, and the retry policy over the failed-event spool. The HTTP
//! calls, sleeps and file reads happen outside; every value they produce
//! is handed in here to be decided on.

use vstd::prelude::*;
use crate::ids;
use crate::strutil::{
    self, first_at, last_at, spec_lines, spec_trim, spec_trim_char, lemma_first_at,
    lemma_last_at_some, lemma_last_at_none, contains_seq,
};

verus! {

/// The `(key, value)` recorded by one `.env` line: the trimmed line must
/// be non-empty, not a comment, and carry `=`; the value loses one layer
/// of surrounding double and then single quotes.
pub open spec fn env_entry_of_line(line: Seq<char>) -> Option<(Seq<char>, Seq<char>)> {
    let t = spec_trim(line);
    if t.len() == 0 || t.first() == '#' {
        None
    } else {
        let e = first_at(t, '=');
        if e == t.len() {
            None
        } else {
            let key = spec_trim(t.take(e));
            let val = spec_trim_char(spec_trim_char(spec_trim(t.skip(e + 1)), '"'), '\'');
            Some((key, val))
        }
    }
}

/// The entries of a sequence of `.env` lines, in line order.
pub open spec fn env_pairs_of_lines(lines: Seq<Seq<char>>) -> Seq<(Seq<char>, Seq<char>)>
    decreases lines.len(),
{
    if lines.len() == 0 {
        Seq::empty()
    } else {
        let rest = env_pairs_of_lines(lines.drop_last());
        match env_entry_of_line(lines.last()) {
            Some(p) => rest.push(p),
            None => rest,
        }
    }
}

/// The entries of a `.env` text.
pub open spec fn env_pairs(content: Seq<char>) -> Seq<(Seq<char>, Seq<char>)> {
    env_pairs_of_lines(spec_lines(content))
}

/// The value recorded for a key — the last line wins.
pub open spec fn env_lookup(pairs: Seq<(Seq<char>, Seq<char>)>, key: Seq<char>) -> Option<
    Seq<char>,
>
    decreases pairs.len(),
{
    if pairs.len() == 0 {
        None
    } else if pairs.last().0 == key {
        Some(pairs.last().1)
    } else {
        env_lookup(pairs.drop_last(), key)
    }
}

/// The variables parsed from a `.env` text.
pub struct EnvVars {
    pub pairs: Vec<(String, String)>,
}

impl EnvVars {
    /// The mathematical image of the parsed entries.
    pub open spec fn view_pairs(self) -> Seq<(Seq<char>, Seq<char>)> {
        Seq::new(self.pairs@.len(), |i: int| (self.pairs@[i].0@, self.pairs@[i].1@))
    }

    /// The value recorded for a key, the last line winning.
    #[verifier::loop_isolation(false)]
    pub fn get(&self, key: &str) -> (r: Option<String>)
        ensures
            match r {
                Some(v) => env_lookup(self.view_pairs(), key@) == Some(v@),
                None => env_lookup(self.view_pairs(), key@) is None,
            },
    {
        let n = self.pairs.len();
        let mut i: usize = n;
        proof {
            assert(self.view_pairs().take(n as int) =~= self.view_pairs());
        }
        while i > 0
            invariant
                i <= n,
                n == self.pairs@.len(),
                env_lookup(self.view_pairs(), key@) == env_lookup(
                    self.view_pairs().take(i as int),
                    key@,
                ),
            decreases i,
        {
            i -= 1;
            if strutil::str_eq(self.pairs[i].0.as_str(), key) {
                proof {
                    assert(self.view_pairs().take(i + 1).last() == (
                        self.pairs@[i as int].0@,
                        self.pairs@[i as int].1@,
                    ));
                }
                return Some(self.pairs[i].1.clone());
            }
            proof {
                assert(self.view_pairs().take(i + 1).last() == (
                    self.pairs@[i as int].0@,
                    self.pairs@[i as int].1@,
                ));
                assert(self.view_pairs().take(i + 1).drop_last() =~= self.view_pairs().take(
                    i as int,
                ));
            }
        }
        proof {
            assert(self.view_pairs().take(0) =~= Seq::<(Seq<char>, Seq<char>)>::empty());
        }
        None
    }
}

/// Parse a `.env` text: one `KEY=VALUE` per line, blank lines and `#`
/// comments skipped, keys and values trimmed, one layer of surrounding
/// double and then single quotes stripped from the value.
#[verifier::loop_isolation(false)]
#[verifier::rlimit(30)]
pub fn parse_env(content: &str) -> (r: EnvVars)
    ensures
        r.view_pairs() == env_pairs(content@),
{
    let lines = strutil::split_lines(content);
    let n = lines.len();
    let mut pairs: Vec<(String, String)> = Vec::new();
    let mut i: usize = 0;
    while i < n
        invariant
            i <= n,
            n == lines@.len(),
            lines.deep_view() == spec_lines(content@),
            Seq::new(pairs@.len(), |k: int| (pairs@[k].0@, pairs@[k].1@)) == env_pairs_of_lines(
                lines.deep_view().take(i as int),
            ),
        decreases n - i,
    {
        let line = lines[i].as_str();
        let t = strutil::trim(line);
        let tm = t.unicode_len();
        let mut entry: Option<(String, String)> = None;
        if tm > 0 && t.get_char(0) != '#' {
            match strutil::find_char_from(t, 0, '=') {
                Some(e) => {
                    proof {
                        lemma_first_at(t@, '=', e as int);
                    }
                    let key = strutil::trim(t.substring_char(0, e));
                    let v0 = strutil::trim(t.substring_char(e + 1, tm));
                    let v1 = strutil::trim_char(v0, '"');
                    let v2 = strutil::trim_char(v1, '\'');
                    proof {
                        assert(t@.subrange(0, e as int) =~= t@.take(e as int));
                        assert(t@.subrange(e + 1, tm as int) =~= t@.skip(e + 1));
                    }
                    entry = Some((key.to_owned(), v2.to_owned()));
                },
                None => {
                    proof {
                        lemma_first_at(t@, '=', tm as int);
                    }
                },
            }
        }
        match entry {
            Some(p) => {
                proof {
                    assert(env_entry_of_line(lines.deep_view().take(i + 1).last()) == Some((
                        p.0@,
                        p.1@,
                    )));
                }
                pairs.push(p);
            },
            None => {
                proof {
                    assert(env_entry_of_line(lines.deep_view().take(i + 1).last()) is None);
                }
            },
        }
        proof {
            assert(lines.deep_view().take(i + 1).drop_last() =~= lines.deep_view().take(i as int));
            assert(Seq::new(pairs@.len(), |k: int| (pairs@[k].0@, pairs@[k].1@))
                =~= env_pairs_of_lines(lines.deep_view().take(i + 1)));
        }
        i += 1;
    }
    proof {
        assert(lines.deep_view().take(n as int) =~= lines.deep_view());
    }
    EnvVars { pairs }
}

/// The remote endpoint's address and key.
#[derive(Debug, Clone)]
pub struct SupabaseConfig {
    pub url: String,
    pub anon_key: String,
}

/// The first of two lookups that answers.
pub open spec fn env_first_of(
    pairs: Seq<(Seq<char>, Seq<char>)>,
    k1: Seq<char>,
    k2: Seq<char>,
) -> Option<Seq<char>> {
    match env_lookup(pairs, k1) {
        Some(v) => Some(v),
        None => env_lookup(pairs, k2),
    }
}

/// The configuration a `.env` text yields: the URL under
/// `ORCHX_SUPABASE_URL` falling back to `VITE_SUPABASE_URL`, and the key
/// under `ORCHX_SUPABASE_ANON_KEY` falling back to
/// `VITE_SUPABASE_ANON_KEY`; both must be present.
pub open spec fn config_of_content(c: Seq<char>) -> Option<(Seq<char>, Seq<char>)> {
    let ps = env_pairs(c);
    let url = env_first_of(ps, "ORCHX_SUPABASE_URL"@, "VITE_SUPABASE_URL"@);
    let key = env_first_of(ps, "ORCHX_SUPABASE_ANON_KEY"@, "VITE_SUPABASE_ANON_KEY"@);
    match url {
        Some(u) => match key {
            Some(k) => Some((u, k)),
            None => None,
        },
        None => None,
    }
}

/// The configuration of the first text that yields one.
pub open spec fn config_of_contents(cs: Seq<Seq<char>>) -> Option<(Seq<char>, Seq<char>)>
    decreases cs.len(),
{
    if cs.len() == 0 {
        None
    } else {
        match config_of_content(cs.first()) {
            Some(p) => Some(p),
            None => config_of_contents(cs.drop_first()),
        }
    }
}

/// Load the remote configuration from `.env` texts tried in order (the
/// caller reads `.env.local` first, then `.env`): the first text that
/// holds both the URL and the key wins.
#[verifier::loop_isolation(false)]
pub fn load_supabase_config(contents: &Vec<String>) -> (r: Option<SupabaseConfig>)
    ensures
        match r {
            Some(cfg) => config_of_contents(contents.deep_view()) == Some(
                (cfg.url@, cfg.anon_key@),
            ),
            None => config_of_contents(contents.deep_view()) is None,
        },
{
    let n = contents.len();
    let mut i: usize = 0;
    proof {
        assert(contents.deep_view().skip(0) =~= contents.deep_view());
    }
    while i < n
        invariant
            i <= n,
            n == contents@.len(),
            config_of_contents(contents.deep_view()) == config_of_contents(
                contents.deep_view().skip(i as int),
            ),
        decreases n - i,
    {
        let vars = parse_env(contents[i].as_str());
        let url = match vars.get("ORCHX_SUPABASE_URL") {
            Some(u) => Some(u),
            None => vars.get("VITE_SUPABASE_URL"),
        };
        let key = match vars.get("ORCHX_SUPABASE_ANON_KEY") {
            Some(k) => Some(k),
            None => vars.get("VITE_SUPABASE_ANON_KEY"),
        };
        proof {
            assert(contents.deep_view().skip(i as int).first() == contents@[i as int]@);
            assert(contents.deep_view().skip(i as int).drop_first() =~= contents.deep_view().skip(
                i + 1,
            ));
        }
        match (url, key) {
            (Some(u), Some(k)) => {
                return Some(SupabaseConfig { url: u, anon_key: k });
            },
            _ => {},
        }
        i += 1;
    }
    None
}

/// A string with every trailing `.git` run removed.
pub open spec fn strip_git_suffix(s: Seq<char>) -> Seq<char>
    decreases s.len(),
{
    if s.len() >= 4 && s.subrange(s.len() - 4, s.len() as int) == ".git"@ {
        strip_git_suffix(s.take(s.len() - 4))
    } else {
        s
    }
}

/// The `url` line of the `[remote "origin"]` section: the first line at or
/// after the section header and before the next section header whose
/// trimmed form begins with `url`.
pub open spec fn find_url_in_section(lines: Seq<Seq<char>>) -> Option<Seq<char>>
    decreases lines.len(),
{
    if lines.len() == 0 {
        None
    } else if lines.first().len() > 0 && lines.first().first() == '[' {
        None
    } else if "url"@.is_prefix_of(spec_trim(lines.first())) {
        Some(lines.first())
    } else {
        find_url_in_section(lines.drop_first())
    }
}

/// The `url` line following the first `[remote "origin"]` header.
pub open spec fn origin_url_line(lines: Seq<Seq<char>>) -> Option<Seq<char>>
    decreases lines.len(),
{
    if lines.len() == 0 {
        None
    } else if contains_seq(lines.first(), "[remote \"origin\"]"@) {
        find_url_in_section(lines.drop_first())
    } else {
        origin_url_line(lines.drop_first())
    }
}

/// The raw URL of a `url = ...` line: what stands between the first `=`
/// and the next `=` or the end, trimmed.
pub open spec fn raw_url_of_line(line: Seq<char>) -> Option<Seq<char>> {
    let e = first_at(line, '=');
    if e == line.len() {
        None
    } else {
        let rest = line.skip(e + 1);
        Some(spec_trim(rest.take(first_at(rest, '='))))
    }
}

/// The `owner/name` form of a raw remote URL. An SSH-style URL yields
/// what follows its first colon, up to the next colon, without the `.git`
/// suffix; any other URL yields its last two `/`-separated segments,
/// after the `.git` suffix is removed.
pub open spec fn repo_from_raw_url(raw: Seq<char>) -> Option<Seq<char>> {
    if contains_seq(raw, "git@"@) {
        let c = first_at(raw, ':');
        if c == raw.len() {
            None
        } else {
            let rest = raw.skip(c + 1);
            Some(strip_git_suffix(rest.take(first_at(rest, ':'))))
        }
    } else {
        let t = strip_git_suffix(raw);
        match last_at(t, '/') {
            None => None,
            Some(k) => {
                let tail = t.skip(k + 1);
                let head = match last_at(t.take(k), '/') {
                    None => t.take(k),
                    Some(k2) => t.subrange(k2 + 1, k),
                };
                Some(head + seq!['/'] + tail)
            },
        }
    }
}

/// The repository name recorded in a git configuration text.
pub open spec fn repo_name_of_git_config(content: Seq<char>) -> Option<Seq<char>> {
    match origin_url_line(spec_lines(content)) {
        None => None,
        Some(l) => match raw_url_of_line(l) {
            None => None,
            Some(raw) => repo_from_raw_url(raw),
        },
    }
}

/// Strip every trailing `.git` from a slice.
#[verifier::loop_isolation(false)]
pub(crate) fn strip_git<'a>(s: &'a str) -> (r: &'a str)
    ensures
        r@ == strip_git_suffix(s@),
{
    let m = s.unicode_len();
    let mut hi: usize = m;
    proof {
        reveal_strlit(".git");
        assert(s@.take(m as int) =~= s@);
    }
    while hi >= 4 && strutil::match_at(s, ".git", hi - 4)
        invariant
            hi <= m,
            m == s@.len(),
            strip_git_suffix(s@) == strip_git_suffix(s@.take(hi as int)),
        decreases hi,
    {
        proof {
            reveal_strlit(".git");
            let t = s@.take(hi as int);
            assert(t.subrange(t.len() - 4, t.len() as int) =~= s@.subrange(hi - 4, hi as int));
            assert(s@.subrange(hi - 4, hi as int) == ".git"@);
            assert(t.take(t.len() - 4) =~= s@.take(hi - 4));
        }
        hi = hi - 4;
    }
    proof {
        reveal_strlit(".git");
        let t = s@.take(hi as int);
        if hi >= 4 {
            assert(t.subrange(t.len() - 4, t.len() as int) =~= s@.subrange(hi - 4, hi as int));
            assert(s@.subrange(hi - 4, hi as int) != ".git"@);
        }
        assert(strip_git_suffix(t) == t);
    }
    s.substring_char(0, hi)
}

/// Extract `owner/name` from a raw remote URL.
#[verifier::loop_isolation(false)]
#[verifier::rlimit(30)]
fn repo_from_url(raw: &str) -> (r: Option<String>)
    ensures
        match r {
            Some(name) => repo_from_raw_url(raw@) == Some(name@),
            None => repo_from_raw_url(raw@) is None,
        },
{
    let m = raw.unicode_len();
    if strutil::contains_sub(raw, "git@") {
        let c = match strutil::find_char_from(raw, 0, ':') {
            Some(p) => p,
            None => {
                proof {
                    lemma_first_at(raw@, ':', m as int);
                }
                return None;
            },
        };
        proof {
            lemma_first_at(raw@, ':', c as int);
        }
        let j = match strutil::find_char_from(raw, c + 1, ':') {
            Some(p) => p,
            None => m,
        };
        let seg = raw.substring_char(c + 1, j);
        proof {
            let rest = raw@.skip(c + 1);
            assert forall|k: int| 0 <= k < j - c - 1 implies rest[k] != ':' by {
                assert(raw@[c + 1 + k] != ':');
            };
            if j < m {
                assert(rest[j - c - 1] == ':');
            }
            lemma_first_at(rest, ':', j - c - 1);
            assert(seg@ =~= rest.take(first_at(rest, ':')));
        }
        Some(strip_git(seg).to_owned())
    } else {
        let t = strip_git(raw);
        let tm = t.unicode_len();
        let k = match strutil::rfind_char_before(t, tm, '/') {
            Some(p) => p,
            None => {
                proof {
                    lemma_last_at_none(t@, '/');
                }
                return None;
            },
        };
        proof {
            lemma_last_at_some(t@, '/', k as int);
        }
        let tail = t.substring_char(k + 1, tm);
        let head = match strutil::rfind_char_before(t, k, '/') {
            Some(k2) => {
                proof {
                    assert forall|j: int| k2 < j < t@.take(k as int).len() implies t@.take(
                        k as int,
                    )[j] != '/' by {
                        assert(t@[j] != '/');
                    };
                    assert(t@.take(k as int)[k2 as int] == t@[k2 as int]);
                    lemma_last_at_some(t@.take(k as int), '/', k2 as int);
                }
                t.substring_char(k2 + 1, k)
            },
            None => {
                proof {
                    assert forall|j: int| 0 <= j < t@.take(k as int).len() implies t@.take(
                        k as int,
                    )[j] != '/' by {
                        assert(t@[j] != '/');
                    };
                    lemma_last_at_none(t@.take(k as int), '/');
                }
                t.substring_char(0, k)
            },
        };
        let mut out = head.to_owned();
        out.append("/");
        out.append(tail);
        proof {
            reveal_strlit("/");
            assert(tail@ =~= t@.skip(k + 1));
            assert(out@ =~= (match last_at(t@.take(k as int), '/') {
                None => t@.take(k as int),
                Some(k2) => t@.subrange(k2 + 1, k as int),
            }) + seq!['/'] + t@.skip(k + 1));
        }
        Some(out)
    }
}

/// Extract the repository name from a git configuration text.
#[verifier::loop_isolation(false)]
#[verifier::rlimit(60)]
pub fn repo_name_from_git_config(content: &str) -> (r: Option<String>)
    ensures
        match r {
            Some(name) => repo_name_of_git_config(content@) == Some(name@),
            None => repo_name_of_git_config(content@) is None,
        },
{
    let lines = strutil::split_lines(content);
    let n = lines.len();
    let mut i: usize = 0;
    proof {
        assert(lines.deep_view().skip(0) =~= lines.deep_view());
    }
    let mut found_header = false;
    while i < n && !found_header
        invariant
            i <= n,
            n == lines@.len(),
            lines.deep_view() == spec_lines(content@),
            !found_header ==> origin_url_line(lines.deep_view()) == origin_url_line(
                lines.deep_view().skip(i as int),
            ),
            found_header ==> i < n && origin_url_line(lines.deep_view()) == find_url_in_section(
                lines.deep_view().skip(i + 1),
            ),
        decreases n - i + (if found_header { 0int } else { 1int }),
    {
        proof {
            assert(lines.deep_view().skip(i as int).first() == lines@[i as int]@);
            assert(lines.deep_view().skip(i as int).drop_first() =~= lines.deep_view().skip(i + 1));
        }
        if strutil::contains_sub(lines[i].as_str(), "[remote \"origin\"]") {
            found_header = true;
        } else {
            i += 1;
        }
    }
    if !found_header {
        proof {
            assert(origin_url_line(lines.deep_view().skip(n as int)) is None);
        }
        return None;
    }
    i += 1;
    let mut found_url = false;
    while i < n && !found_url
        invariant
            i <= n,
            n == lines@.len(),
            lines.deep_view() == spec_lines(content@),
            !found_url ==> origin_url_line(lines.deep_view()) == find_url_in_section(
                lines.deep_view().skip(i as int),
            ),
            found_url ==> i < n && origin_url_line(lines.deep_view()) == Some(lines@[i as int]@),
        decreases n - i + (if found_url { 0int } else { 1int }),
    {
        let line = lines[i].as_str();
        proof {
            assert(lines.deep_view().skip(i as int).first() == lines@[i as int]@);
            assert(lines.deep_view().skip(i as int).drop_first() =~= lines.deep_view().skip(i + 1));
        }
        if !line.is_empty() && line.get_char(0) == '[' {
            proof {
                assert(find_url_in_section(lines.deep_view().skip(i as int)) is None);
            }
            return None;
        }
        if strutil::starts_with(strutil::trim(line), "url") {
            found_url = true;
        } else {
            i += 1;
        }
    }
    if !found_url {
        proof {
            assert(find_url_in_section(lines.deep_view().skip(n as int)) is None);
        }
        return None;
    }
    let line = lines[i].as_str();
    let lm = line.unicode_len();
    let e = match strutil::find_char_from(line, 0, '=') {
        Some(p) => p,
        None => {
            proof {
                lemma_first_at(line@, '=', lm as int);
            }
            return None;
        },
    };
    proof {
        lemma_first_at(line@, '=', e as int);
    }
    let j = match strutil::find_char_from(line, e + 1, '=') {
        Some(p) => p,
        None => lm,
    };
    let raw = strutil::trim(line.substring_char(e + 1, j));
    proof {
        let rest = line@.skip(e + 1);
        assert forall|k: int| 0 <= k < j - e - 1 implies rest[k] != '=' by {
            assert(line@[e + 1 + k] != '=');
        };
        if j < lm {
            assert(rest[j - e - 1] == '=');
        }
        lemma_first_at(rest, '=', j - e - 1);
        assert(line@.subrange(e + 1, j as int) =~= rest.take(first_at(rest, '=')));
    }
    repo_from_url(raw)
}

/// The hexadecimal digit character for a value below sixteen.
pub open spec fn hex_char(d: nat) -> char {
    if d == 0 {
        '0'
    } else if d == 1 {
        '1'
    } else if d == 2 {
        '2'
    } else if d == 3 {
        '3'
    } else if d == 4 {
        '4'
    } else if d == 5 {
        '5'
    } else if d == 6 {
        '6'
    } else if d == 7 {
        '7'
    } else if d == 8 {
        '8'
    } else if d == 9 {
        '9'
    } else if d == 10 {
        'a'
    } else if d == 11 {
        'b'
    } else if d == 12 {
        'c'
    } else if d == 13 {
        'd'
    } else if d == 14 {
        'e'
    } else {
        'f'
    }
}

/// The JSON string-escape of one character: quotes and backslashes gain a
/// backslash, the common control characters their short forms, the other
/// control characters a `\u00..` form, and everything else stands as is.
pub open spec fn esc_char(c: char) -> Seq<char> {
    if c == '"' {
        seq!['\\', '"']
    } else if c == '\\' {
        seq!['\\', '\\']
    } else if c == '\n' {
        seq!['\\', 'n']
    } else if c == '\r' {
        seq!['\\', 'r']
    } else if c == '\t' {
        seq!['\\', 't']
    } else if (c as nat) < 32 {
        seq!['\\', 'u', '0', '0', hex_char((c as nat) / 16), hex_char((c as nat) % 16)]
    } else {
        seq![c]
    }
}

/// The JSON string-escape of a text.
pub open spec fn json_escaped(s: Seq<char>) -> Seq<char>
    decreases s.len(),
{
    if s.len() == 0 {
        Seq::empty()
    } else {
        json_escaped(s.drop_last()) + esc_char(s.last())
    }
}

/// A JSON string literal: the escaped text between double quotes.
pub open spec fn json_string(s: Seq<char>) -> Seq<char> {
    seq!['"'] + json_escaped(s) + seq!['"']
}

/// A JSON string literal or `null`.
pub open spec fn json_opt_string(v: Option<Seq<char>>) -> Seq<char> {
    match v {
        Some(s) => json_string(s),
        None => "null"@,
    }
}

/// The one-character string for a hexadecimal digit.
fn hex_str(d: u32) -> (r: &'static str)
    requires
        d < 16,
    ensures
        r@ == seq![hex_char(d as nat)],
{
    let r: &'static str = match d {
        0 => "0",
        1 => "1",
        2 => "2",
        3 => "3",
        4 => "4",
        5 => "5",
        6 => "6",
        7 => "7",
        8 => "8",
        9 => "9",
        10 => "a",
        11 => "b",
        12 => "c",
        13 => "d",
        14 => "e",
        _ => "f",
    };
    proof {
        reveal_strlit("0");
        reveal_strlit("1");
        reveal_strlit("2");
        reveal_strlit("3");
        reveal_strlit("4");
        reveal_strlit("5");
        reveal_strlit("6");
        reveal_strlit("7");
        reveal_strlit("8");
        reveal_strlit("9");
        reveal_strlit("a");
        reveal_strlit("b");
        reveal_strlit("c");
        reveal_strlit("d");
        reveal_strlit("e");
        reveal_strlit("f");
        assert(r@ =~= seq![hex_char(d as nat)]);
    }
    r
}

/// Append the JSON string-escape of a text to an output buffer.
#[verifier::loop_isolation(false)]
#[verifier::rlimit(30)]
fn append_json_escaped(out: &mut String, s: &str)
    ensures
        final(out)@ == old(out)@ + json_escaped(s@),
{
    let m = s.unicode_len();
    let mut i: usize = 0;
    proof {
        assert(old(out)@ + json_escaped(s@.take(0)) =~= old(out)@);
    }
    while i < m
        invariant
            i <= m,
            m == s@.len(),
            out@ == old(out)@ + json_escaped(s@.take(i as int)),
        decreases m - i,
    {
        let c = s.get_char(i);
        if c == '"' {
            out.append("\\\"");
            proof {
                reveal_strlit("\\\"");
                assert("\\\""@ =~= esc_char('"'));
            }
        } else if c == '\\' {
            out.append("\\\\");
            proof {
                reveal_strlit("\\\\");
                assert("\\\\"@ =~= esc_char('\\'));
            }
        } else if c == '\n' {
            out.append("\\n");
            proof {
                reveal_strlit("\\n");
                assert("\\n"@ =~= esc_char('\n'));
            }
        } else if c == '\r' {
            out.append("\\r");
            proof {
                reveal_strlit("\\r");
                assert("\\r"@ =~= esc_char('\r'));
            }
        } else if c == '\t' {
            out.append("\\t");
            proof {
                reveal_strlit("\\t");
                assert("\\t"@ =~= esc_char('\t'));
            }
        } else if (c as u32) < 32 {
            out.append("\\u00");
            out.append(hex_str((c as u32) / 16));
            out.append(hex_str((c as u32) % 16));
            proof {
                reveal_strlit("\\u00");
                assert("\\u00"@ + seq![hex_char(((c as u32) / 16) as nat)] + seq![
                    hex_char(((c as u32) % 16) as nat),
                ] =~= esc_char(c));
            }
        } else {
            out.append(s.substring_char(i, i + 1));
            proof {
                assert(s@.subrange(i as int, i + 1) =~= seq![s@[i as int]]);
                assert(seq![s@[i as int]] =~= esc_char(c));
            }
        }
        proof {
            assert(s@.take(i + 1).drop_last() =~= s@.take(i as int));
            assert(s@.take(i + 1).last() == s@[i as int]);
            assert(out@ =~= old(out)@ + json_escaped(s@.take(i + 1)));
        }
        i += 1;
    }
    proof {
        assert(s@.take(m as int) =~= s@);
    }
}

/// Append a JSON string literal to an output buffer.
fn append_json_string(out: &mut String, s: &str)
    ensures
        final(out)@ == old(out)@ + json_string(s@),
{
    out.append("\"");
    append_json_escaped(out, s);
    out.append("\"");
    proof {
        reveal_strlit("\"");
        assert(out@ =~= old(out)@ + json_string(s@));
    }
}

/// The `file.changed` payload: the relative path, the event type, the
/// repository name when known, and the violation text or `null`, as a
/// JSON object with its keys in alphabetical order.
pub open spec fn file_change_payload_spec(
    file: Seq<char>,
    violation: Option<Seq<char>>,
    repo: Option<Seq<char>>,
) -> Seq<char> {
    "{\"event_type\":\"change\",\"file\":"@ + json_string(file) + (match repo {
        Some(r) => ",\"repo_full_name\":"@ + json_string(r),
        None => Seq::empty(),
    }) + ",\"violation\":"@ + json_opt_string(violation) + "}"@
}

/// Build the `file.changed` payload text.
pub fn file_change_payload(file: &str, violation: Option<&String>, repo: Option<&String>) -> (r:
    String)
    ensures
        r@ == file_change_payload_spec(
            file@,
            match violation {
                Some(v) => Some(v@),
                None => None,
            },
            match repo {
                Some(p) => Some(p@),
                None => None,
            },
        ),
{
    let mut out = "{\"event_type\":\"change\",\"file\":".to_owned();
    append_json_string(&mut out, file);
    match repo {
        Some(p) => {
            out.append(",\"repo_full_name\":");
            append_json_string(&mut out, p.as_str());
        },
        None => {},
    }
    out.append(",\"violation\":");
    match violation {
        Some(v) => {
            append_json_string(&mut out, v.as_str());
        },
        None => {
            out.append("null");
        },
    }
    out.append("}");
    proof {
        assert(out@ =~= file_change_payload_spec(
            file@,
            match violation {
                Some(v) => Some(v@),
                None => None,
            },
            match repo {
                Some(p) => Some(p@),
                None => None,
            },
        ));
    }
    out
}

/// One event on its way to the remote.
#[derive(Debug, Clone)]
pub struct CliEvent {
    pub event_id: String,
    pub event_type: String,
    pub payload: String,
    pub session_id: Option<String>,
    pub project_id: Option<String>,
    pub status: String,
    pub retry_count: u32,
}

/// An event the remote did not accept, recorded in the spool.
#[derive(Debug, Clone)]
pub struct FailedEvent {
    pub event_id: String,
    pub event_type: String,
    pub payload: String,
    pub session_id: Option<String>,
    pub failed_at: String,
    pub retry_count: u32,
    pub error: String,
}

/// The remote accepted the submission: a success status, or a conflict
/// (the remote already holds this event id, so the submission already
/// counted).
pub open spec fn post_accepted(status: u16) -> bool {
    200 <= status < 300 || status == 409
}

/// Classify the remote's answer to a post.
pub fn classify_post_status(status: u16) -> (r: bool)
    ensures
        r == post_accepted(status),
{
    (200 <= status && status < 300) || status == 409
}

/// Law: a repost answered with a conflict counts as accepted — the remote
/// already holds the event id, so idempotency is preserved.
pub proof fn lemma_conflict_counts_as_accepted()
    ensures
        post_accepted(409),
{
}

/// The backoff before a retry attempt, in milliseconds.
pub open spec fn retry_delay_spec(retry_count: u32) -> u64 {
    if retry_count == 0 {
        1000
    } else if retry_count == 1 {
        2000
    } else {
        4000
    }
}

/// What `retry_failed` does with one spooled event.
#[derive(Debug, Clone, Copy, PartialEq, Eq, Structural)]
pub enum RetryPlan {
    /// The event has exhausted its retries; it stays in the spool
    /// untouched.
    Exhausted,
    /// The event is retried after the given backoff, in milliseconds.
    Attempt(u64),
}

/// Decide what to do with one spooled event: an event retried three times
/// is left alone; any other is retried after an exponential backoff of
/// one, two or four seconds.
pub fn plan_retry(ev: &FailedEvent) -> (r: RetryPlan)
    ensures
        (ev.retry_count >= 3) <==> (r is Exhausted),
        r matches RetryPlan::Attempt(d) ==> d == retry_delay_spec(ev.retry_count),
{
    if ev.retry_count >= 3 {
        RetryPlan::Exhausted
    } else if ev.retry_count == 0 {
        RetryPlan::Attempt(1000)
    } else if ev.retry_count == 1 {
        RetryPlan::Attempt(2000)
    } else {
        RetryPlan::Attempt(4000)
    }
}

/// The event to repost for a spooled failure: the stored event id is
/// reused, so the remote can recognize a duplicate; the retry count is
/// advanced.
pub fn rebuild_retry_event(ev: &FailedEvent) -> (r: CliEvent)
    requires
        ev.retry_count < u32::MAX,
    ensures
        r.event_id == ev.event_id,
        r.event_type == ev.event_type,
        r.payload == ev.payload,
        r.session_id == ev.session_id,
        r.project_id is None,
        r.status@ == "pending"@,
        r.retry_count == ev.retry_count + 1,
{
    CliEvent {
        event_id: ev.event_id.clone(),
        event_type: ev.event_type.clone(),
        payload: ev.payload.clone(),
        session_id: match &ev.session_id {
            Some(s) => Some(s.clone()),
            None => None,
        },
        project_id: None,
        status: "pending".to_owned(),
        retry_count: ev.retry_count + 1,
    }
}

/// Settle one retry attempt: an accepted event leaves the spool; a
/// rejected one stays with its retry count advanced and the new error
/// recorded, its event id and payload untouched.
pub fn settle_retry(ev: &FailedEvent, accepted: bool, error: &str) -> (r: Option<FailedEvent>)
    requires
        ev.retry_count < u32::MAX,
    ensures
        accepted <==> r is None,
        r matches Some(f) ==> {
            &&& f.event_id == ev.event_id
            &&& f.event_type == ev.event_type
            &&& f.payload == ev.payload
            &&& f.session_id == ev.session_id
            &&& f.failed_at == ev.failed_at
            &&& f.retry_count == ev.retry_count + 1
            &&& f.error@ == error@
        },
{
    if accepted {
        None
    } else {
        Some(
            FailedEvent {
                event_id: ev.event_id.clone(),
                event_type: ev.event_type.clone(),
                payload: ev.payload.clone(),
                session_id: match &ev.session_id {
                    Some(s) => Some(s.clone()),
                    None => None,
                },
                failed_at: ev.failed_at.clone(),
                retry_count: ev.retry_count + 1,
                error: error.to_owned(),
            },
        )
    }
}

/// The sync client's state: the remote configuration, the project
/// directory the spool lives under, and the resolved repository name.
pub struct SyncClient {
    pub config: SupabaseConfig,
    pub project_path: String,
    pub repo_full_name: Option<String>,
}

impl SyncClient {
    /// A client for one remote and one project directory.
    pub fn new(config: SupabaseConfig, project_path: String) -> (r: Self)
        ensures
            r.config == config,
            r.project_path == project_path,
            r.repo_full_name is None,
    {
        SyncClient { config, project_path, repo_full_name: None }
    }

    /// The endpoint events are posted to.
    pub fn events_url(&self) -> (r: String)
        ensures
            r@ == self.config.url@ + "/rest/v1/cli_events"@,
    {
        let mut r = self.config.url.clone();
        r.append("/rest/v1/cli_events");
        r
    }

    /// The endpoint probed by the connection check.
    pub fn connection_check_url(&self) -> (r: String)
        ensures
            r@ == self.config.url@ + "/rest/v1/cli_events?select=id&limit=1"@,
    {
        let mut r = self.config.url.clone();
        r.append("/rest/v1/cli_events?select=id&limit=1");
        r
    }

    /// Resolve and record the repository name from the text of the
    /// project's git configuration; the name is kept only on success.
    pub fn resolve_repo_name(&mut self, git_config: Option<&str>) -> (r: Option<String>)
        ensures
            final(self).config == old(self).config,
            final(self).project_path == old(self).project_path,
            match git_config {
                None => r is None && final(self).repo_full_name == old(self).repo_full_name,
                Some(c) => match repo_name_of_git_config(c@) {
                    Some(name) => (r matches Some(s) && s@ == name) && (
                    final(self).repo_full_name matches Some(s2) && s2@ == name),
                    None => r is None && final(self).repo_full_name == old(
                        self,
                    ).repo_full_name,
                },
            },
    {
        let content = match git_config {
            Some(c) => c,
            None => {
                return None;
            },
        };
        match repo_name_from_git_config(content) {
            Some(name) => {
                self.repo_full_name = Some(name.clone());
                Some(name)
            },
            None => None,
        }
    }

    /// Assemble a fresh event for submission: a new event id, the pending
    /// status, and no retries yet.
    pub fn build_event(&self, event_type: &str, payload: String, session_id: Option<String>) -> (r:
        CliEvent)
        ensures
            r.event_id@.len() == 36,
            r.event_type@ == event_type@,
            r.payload == payload,
            r.session_id == session_id,
            r.project_id is None,
            r.status@ == "pending"@,
            r.retry_count == 0,
    {
        CliEvent {
            event_id: ids::new_uuid(),
            event_type: event_type.to_owned(),
            payload: payload,
            session_id: session_id,
            project_id: None,
            status: "pending".to_owned(),
            retry_count: 0,
        }
    }
}

/// The spool entry recorded when the remote rejects an event: the event's
/// identity and payload, the instant and the error text.
pub fn build_failed_event(ev: &CliEvent, error: &str, failed_at: String) -> (r: FailedEvent)
    ensures
        r.event_id == ev.event_id,
        r.event_type == ev.event_type,
        r.payload == ev.payload,
        r.session_id == ev.session_id,
        r.failed_at == failed_at,
        r.retry_count == 0,
        r.error@ == error@,
{
    FailedEvent {
        event_id: ev.event_id.clone(),
        event_type: ev.event_type.clone(),
        payload: ev.payload.clone(),
        session_id: match &ev.session_id {
            Some(s) => Some(s.clone()),
            None => None,
        },
        failed_at: failed_at,
        retry_count: 0,
        error: error.to_owned(),
    }
}

} // verus!
