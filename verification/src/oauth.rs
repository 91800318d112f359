//! The OAuth callback endpoint: the callback URL for a bound port, and the
//! extraction of the authorization code from the first line of the HTTP
//! request. The TCP listener itself lives outside; it hands the raw
//! request text in and receives the code back.

use vstd::prelude::*;
use crate::strutil::{self, first_at, is_space, lemma_first_at, lemma_first_at_bounds, strip_cr};

verus! {

/// The decimal digit character for a value below ten.
pub open spec fn digit_char(d: nat) -> char {
    if d == 0 {
        '0'
    } else if d == 1 {
        '1'
    } else if d == 2 {
        '2'
    } else if d == 3 {
        '3'
    } else if d == 4 {
        '4'
    } else if d == 5 {
        '5'
    } else if d == 6 {
        '6'
    } else if d == 7 {
        '7'
    } else if d == 8 {
        '8'
    } else {
        '9'
    }
}

/// The decimal rendering of a number, most significant digit first.
pub open spec fn dec_str(n: nat) -> Seq<char>
    decreases n,
{
    if n < 10 {
        seq![digit_char(n)]
    } else {
        dec_str(n / 10).push(digit_char(n % 10))
    }
}

/// The one-character string for a decimal digit.
fn digit_str(d: u8) -> (r: &'static str)
    requires
        d < 10,
    ensures
        r@ == seq![digit_char(d as nat)],
{
    let r: &'static str = match d {
        0 => "0",
        1 => "1",
        2 => "2",
        3 => "3",
        4 => "4",
        5 => "5",
        6 => "6",
        7 => "7",
        8 => "8",
        _ => "9",
    };
    proof {
        reveal_strlit("0");
        reveal_strlit("1");
        reveal_strlit("2");
        reveal_strlit("3");
        reveal_strlit("4");
        reveal_strlit("5");
        reveal_strlit("6");
        reveal_strlit("7");
        reveal_strlit("8");
        reveal_strlit("9");
        assert(r@ =~= seq![digit_char(d as nat)]);
    }
    r
}

/// The decimal rendering of a port number.
fn u16_dec_string(n: u16) -> (r: String)
    ensures
        r@ == dec_str(n as nat),
    decreases n,
{
    if n < 10 {
        digit_str(n as u8).to_owned()
    } else {
        let mut s = u16_dec_string(n / 10);
        s.append(digit_str((n % 10) as u8));
        proof {
            assert(s@ =~= dec_str((n / 10) as nat).push(digit_char((n % 10) as nat)));
        }
        s
    }
}

/// The state of the local callback endpoint: the port the listener bound.
pub struct OAuthServer {
    pub port: u16,
}

impl OAuthServer {
    /// Record the port an ephemeral listener was bound to.
    pub fn from_port(port: u16) -> (r: Self)
        ensures
            r.port == port,
    {
        OAuthServer { port }
    }

    /// The callback URL to hand to the browser.
    pub fn callback_url(&self) -> (r: String)
        ensures
            r@ == "http://127.0.0.1:"@ + dec_str(self.port as nat) + "/auth/callback"@,
    {
        let mut s = "http://127.0.0.1:".to_owned();
        let port = u16_dec_string(self.port);
        s.append(port.as_str());
        s.append("/auth/callback");
        s
    }
}

/// The rest of a token run: the suffix from the first whitespace on.
pub open spec fn drop_token(s: Seq<char>) -> Seq<char>
    decreases s.len(),
{
    if s.len() > 0 && !is_space(s.first()) {
        drop_token(s.drop_first())
    } else {
        s
    }
}

/// The leading token: the maximal whitespace-free prefix.
pub open spec fn take_token(s: Seq<char>) -> Seq<char>
    decreases s.len(),
{
    if s.len() > 0 && !is_space(s.first()) {
        seq![s.first()] + take_token(s.drop_first())
    } else {
        Seq::empty()
    }
}

/// The suffix from the first non-whitespace character on.
pub open spec fn skip_spaces(s: Seq<char>) -> Seq<char>
    decreases s.len(),
{
    if s.len() > 0 && is_space(s.first()) {
        skip_spaces(s.drop_first())
    } else {
        s
    }
}

/// The second whitespace-separated token of a line, if the line has two.
pub open spec fn second_token(line: Seq<char>) -> Option<Seq<char>> {
    let t1 = skip_spaces(line);
    if take_token(t1).len() == 0 {
        None
    } else {
        let t2 = skip_spaces(drop_token(t1));
        if take_token(t2).len() == 0 {
            None
        } else {
            Some(take_token(t2))
        }
    }
}

/// The query string of a request path: what stands between the first `?`
/// and the next `?` or the end.
pub open spec fn query_of(path: Seq<char>) -> Option<Seq<char>> {
    let q = first_at(path, '?');
    if q == path.len() {
        None
    } else {
        let rest = path.skip(q + 1);
        Some(rest.take(first_at(rest, '?')))
    }
}

/// The value of the first `code=` parameter among the `&`-separated
/// parameters of a query string.
pub open spec fn code_of_query(query: Seq<char>) -> Option<Seq<char>>
    decreases query.len(),
    via code_of_query_decreases
{
    let a = first_at(query, '&');
    let param = query.take(a);
    if "code="@.is_prefix_of(param) {
        Some(param.skip(5))
    } else if a == query.len() {
        None
    } else {
        code_of_query(query.skip(a + 1))
    }
}

#[via_fn]
proof fn code_of_query_decreases(query: Seq<char>) {
    lemma_first_at_bounds(query, '&');
}

/// The authorization code carried by a callback request: the `code=`
/// parameter of the query string of the second token of the first line.
pub open spec fn extract_code_spec(req: Seq<char>) -> Option<Seq<char>> {
    if req.len() == 0 {
        None
    } else {
        let line = strip_cr(req.take(first_at(req, '\n')));
        match second_token(line) {
            None => None,
            Some(path) => match query_of(path) {
                None => None,
                Some(q) => code_of_query(q),
            },
        }
    }
}

/// The position where the leading whitespace run starting at `from` ends.
#[verifier::loop_isolation(false)]
fn scan_spaces(s: &str, from: usize) -> (r: usize)
    requires
        from <= s@.len(),
    ensures
        from <= r <= s@.len(),
        s@.skip(r as int) == skip_spaces(s@.skip(from as int)),
        r < s@.len() ==> !is_space(s@[r as int]),
{
    let m = s.unicode_len();
    let mut i: usize = from;
    while i < m && strutil::is_space_char(s.get_char(i))
        invariant
            from <= i <= m,
            m == s@.len(),
            skip_spaces(s@.skip(from as int)) == skip_spaces(s@.skip(i as int)),
        decreases m - i,
    {
        proof {
            assert(s@.skip(i as int).first() == s@[i as int]);
            assert(s@.skip(i as int).drop_first() =~= s@.skip(i + 1));
        }
        i += 1;
    }
    proof {
        if i < m {
            assert(s@.skip(i as int).first() == s@[i as int]);
            assert(skip_spaces(s@.skip(i as int)) == s@.skip(i as int));
        } else {
            assert(s@.skip(i as int).len() == 0);
        }
    }
    i
}

/// The position where the token starting at `from` ends.
#[verifier::loop_isolation(false)]
fn scan_token(s: &str, from: usize) -> (r: usize)
    requires
        from <= s@.len(),
    ensures
        from <= r <= s@.len(),
        s@.skip(r as int) == drop_token(s@.skip(from as int)),
        s@.subrange(from as int, r as int) == take_token(s@.skip(from as int)),
{
    let m = s.unicode_len();
    let mut i: usize = from;
    while i < m && !strutil::is_space_char(s.get_char(i))
        invariant
            from <= i <= m,
            m == s@.len(),
            drop_token(s@.skip(from as int)) == drop_token(s@.skip(i as int)),
            take_token(s@.skip(from as int)) == s@.subrange(from as int, i as int) + take_token(
                s@.skip(i as int),
            ),
        decreases m - i,
    {
        proof {
            assert(s@.skip(i as int).first() == s@[i as int]);
            assert(s@.skip(i as int).drop_first() =~= s@.skip(i + 1));
            assert(s@.subrange(from as int, i as int) + seq![s@[i as int]] =~= s@.subrange(
                from as int,
                i + 1,
            ));
            assert(s@.subrange(from as int, i as int) + (seq![s@[i as int]] + take_token(
                s@.skip(i + 1),
            )) =~= s@.subrange(from as int, i + 1) + take_token(s@.skip(i + 1)));
        }
        i += 1;
    }
    proof {
        if i < m {
            assert(s@.skip(i as int).first() == s@[i as int]);
        } else {
            assert(s@.skip(i as int).len() == 0);
        }
        assert(take_token(s@.skip(i as int)) =~= Seq::<char>::empty());
        assert(drop_token(s@.skip(i as int)) == s@.skip(i as int));
        assert(s@.subrange(from as int, i as int) + Seq::<char>::empty() =~= s@.subrange(
            from as int,
            i as int,
        ));
    }
    i
}

/// Extract the authorization code from a callback request, if its first
/// line carries one.
#[verifier::loop_isolation(false)]
#[verifier::rlimit(60)]
pub fn extract_code(request: &str) -> (r: Option<String>)
    ensures
        match r {
            Some(c) => extract_code_spec(request@) == Some(c@),
            None => extract_code_spec(request@) is None,
        },
{
    let m = request.unicode_len();
    if m == 0 {
        return None;
    }
    let nl = match strutil::find_char_from(request, 0, '\n') {
        Some(p) => p,
        None => m,
    };
    proof {
        lemma_first_at(request@, '\n', nl as int);
    }
    let line_end = if nl > 0 && request.get_char(nl - 1) == '\r' {
        nl - 1
    } else {
        nl
    };
    let line = request.substring_char(0, line_end);
    proof {
        assert(request@.take(nl as int) =~= request@.subrange(0, nl as int));
        assert(line@ =~= strip_cr(request@.take(nl as int)));
    }
    let a0 = scan_spaces(line, 0);
    proof {
        assert(line@.skip(0) =~= line@);
    }
    let b0 = scan_token(line, a0);
    if b0 == a0 {
        proof {
            assert(take_token(skip_spaces(line@)) =~= Seq::<char>::empty());
        }
        return None;
    }
    let a1 = scan_spaces(line, b0);
    let b1 = scan_token(line, a1);
    if b1 == a1 {
        proof {
            assert(take_token(skip_spaces(drop_token(skip_spaces(line@))))
                =~= Seq::<char>::empty());
        }
        return None;
    }
    let path = line.substring_char(a1, b1);
    proof {
        assert(path@ == take_token(skip_spaces(drop_token(skip_spaces(line@)))));
        assert(second_token(line@) == Some(path@));
    }
    let pm = path.unicode_len();
    let q = match strutil::find_char_from(path, 0, '?') {
        Some(p) => p,
        None => {
            proof {
                lemma_first_at(path@, '?', pm as int);
            }
            return None;
        },
    };
    proof {
        lemma_first_at(path@, '?', q as int);
    }
    let j2 = match strutil::find_char_from(path, q + 1, '?') {
        Some(p) => p,
        None => pm,
    };
    let query = path.substring_char(q + 1, j2);
    proof {
        let rest = path@.skip(q + 1);
        assert forall|k: int| 0 <= k < j2 - q - 1 implies rest[k] != '?' by {
            assert(path@[q + 1 + k] != '?');
        };
        if j2 < pm {
            assert(rest[j2 - q - 1] == '?');
        }
        lemma_first_at(rest, '?', j2 - q - 1);
        assert(query@ =~= rest.take(first_at(rest, '?')));
        assert(query_of(path@) == Some(query@));
    }
    let qm = query.unicode_len();
    let mut i: usize = 0;
    proof {
        assert(query@.skip(0) =~= query@);
    }
    loop
        invariant
            i <= qm,
            qm == query@.len(),
            code_of_query(query@) == code_of_query(query@.skip(i as int)),
        decreases qm - i,
    {
        let a = match strutil::find_char_from(query, i, '&') {
            Some(p) => p,
            None => qm,
        };
        let ghost suffix = query@.skip(i as int);
        proof {
            assert forall|k: int| 0 <= k < a - i implies suffix[k] != '&' by {
                assert(query@[i + k] != '&');
            };
            if a < qm {
                assert(suffix[a - i] == '&');
            }
            lemma_first_at(suffix, '&', a - i);
            assert(suffix.take(a - i) =~= query@.subrange(i as int, a as int));
        }
        let param = query.substring_char(i, a);
        if strutil::starts_with(param, "code=") {
            proof {
                reveal_strlit("code=");
                assert(param@.len() >= 5);
            }
            let code = query.substring_char(i + 5, a);
            proof {
                assert(code@ =~= param@.skip(5));
                assert(code_of_query(suffix) == Some(param@.skip(5)));
            }
            return Some(code.to_owned());
        }
        if a == qm {
            proof {
                assert(code_of_query(suffix) is None);
            }
            return None;
        }
        proof {
            assert(suffix.skip(a - i + 1) =~= query@.skip(a + 1));
            assert(code_of_query(suffix) == code_of_query(query@.skip(a + 1)));
        }
        i = a + 1;
    }
}

} // verus!
