//! Verified string primitives shared by the parsers in this crate.

use vstd::prelude::*;

verus! {

/// `pat` occurs in `s` starting at index `i`.
pub open spec fn occurs_at(s: Seq<char>, pat: Seq<char>, i: int) -> bool {
    0 <= i && i + pat.len() <= s.len() && s.subrange(i, i + pat.len()) == pat
}

/// `pat` occurs somewhere in `s`.
pub open spec fn contains_seq(s: Seq<char>, pat: Seq<char>) -> bool {
    exists|i: int| occurs_at(s, pat, i)
}

/// Whether the characters of `pat` stand at position `at` of `s`.
pub fn match_at(s: &str, pat: &str, at: usize) -> (r: bool)
    requires
        at + pat@.len() <= s@.len(),
    ensures
        r == occurs_at(s@, pat@, at as int),
{
    let n = pat.unicode_len();
    let m = s.unicode_len();
    assert(at + n <= m);
    let mut i: usize = 0;
    while i < n
        invariant
            i <= n,
            n == pat@.len(),
            m == s@.len(),
            at + n <= m,
            forall|j: int| 0 <= j < i ==> s@[at + j] == pat@[j],
        decreases n - i,
    {
        if s.get_char(at + i) != pat.get_char(i) {
            assert(s@.subrange(at as int, at + n) != pat@) by {
                assert(s@.subrange(at as int, at + n)[i as int] != pat@[i as int]);
            }
            return false;
        }
        i += 1;
    }
    proof {
        assert(s@.subrange(at as int, at + n) =~= pat@);
    }
    true
}

/// Whether `pat` occurs anywhere in `s`.
pub fn contains_sub(s: &str, pat: &str) -> (r: bool)
    ensures
        r == contains_seq(s@, pat@),
{
    let n = pat.unicode_len();
    let m = s.unicode_len();
    if n > m {
        return false;
    }
    if n == 0 {
        assert(occurs_at(s@, pat@, 0)) by {
            assert(s@.subrange(0, 0) =~= pat@);
        }
        return true;
    }
    let mut i: usize = 0;
    while i <= m - n
        invariant
            n == pat@.len(),
            m == s@.len(),
            1 <= n <= m,
            i <= m - n + 1,
            forall|k: int| 0 <= k < i ==> !occurs_at(s@, pat@, k),
        decreases m - i,
    {
        if match_at(s, pat, i) {
            return true;
        }
        i += 1;
    }
    false
}

/// Whether `s` begins with `pat`.
pub fn starts_with(s: &str, pat: &str) -> (r: bool)
    ensures
        r == pat@.is_prefix_of(s@),
{
    let n = pat.unicode_len();
    let m = s.unicode_len();
    if n > m {
        return false;
    }
    if match_at(s, pat, 0) {
        assert(pat@.is_prefix_of(s@)) by {
            assert(s@.subrange(0, pat@.len() as int) == pat@);
        }
        true
    } else {
        assert(!pat@.is_prefix_of(s@)) by {
            if pat@.is_prefix_of(s@) {
                assert(s@.subrange(0, pat@.len() as int) =~= pat@);
            }
        }
        false
    }
}

/// Whether two string slices hold the same characters.
pub fn str_eq(a: &str, b: &str) -> (r: bool)
    ensures
        r == (a@ == b@),
{
    let n = a.unicode_len();
    let m = b.unicode_len();
    if n != m {
        return false;
    }
    if match_at(a, b, 0) {
        proof {
            assert(a@ =~= b@);
        }
        true
    } else {
        assert(a@ != b@) by {
            if a@ == b@ {
                assert(a@.subrange(0, m as int) =~= b@);
            }
        }
        false
    }
}

/// Index of the first occurrence of `c` in `s` at or after `from`.
pub fn find_char_from(s: &str, from: usize, c: char) -> (r: Option<usize>)
    requires
        from <= s@.len(),
    ensures
        match r {
            Some(i) => from <= i < s@.len() && s@[i as int] == c && forall|j: int|
                from <= j < i ==> s@[j] != c,
            None => forall|j: int| from <= j < s@.len() ==> s@[j] != c,
        },
{
    let m = s.unicode_len();
    let mut i: usize = from;
    while i < m
        invariant
            from <= i <= m,
            m == s@.len(),
            forall|j: int| from <= j < i ==> s@[j] != c,
        decreases m - i,
    {
        if s.get_char(i) == c {
            return Some(i);
        }
        i += 1;
    }
    None
}

/// The index of the first occurrence of `c` in `s`, or the length when `c`
/// does not occur.
pub open spec fn first_at(s: Seq<char>, c: char) -> int
    decreases s.len(),
{
    if s.len() == 0 {
        0
    } else if s.first() == c {
        0
    } else {
        1 + first_at(s.drop_first(), c)
    }
}

/// `first_at` is the unique position with no occurrence before it that is
/// an occurrence or the end.
pub proof fn lemma_first_at(s: Seq<char>, c: char, i: int)
    requires
        0 <= i <= s.len(),
        forall|j: int| 0 <= j < i ==> s[j] != c,
        i == s.len() || s[i] == c,
    ensures
        first_at(s, c) == i,
    decreases s.len(),
{
    if s.len() > 0 && i > 0 {
        assert forall|j: int| 0 <= j < i - 1 implies s.drop_first()[j] != c by {
            assert(s[j + 1] != c);
        };
        lemma_first_at(s.drop_first(), c, i - 1);
    }
}

/// Basic bounds of `first_at`: it lies in the string, every position
/// before it differs from `c`, and it is an occurrence unless it is the
/// end.
pub proof fn lemma_first_at_bounds(s: Seq<char>, c: char)
    ensures
        0 <= first_at(s, c) <= s.len(),
        forall|j: int| 0 <= j < first_at(s, c) ==> s[j] != c,
        first_at(s, c) == s.len() || s[first_at(s, c)] == c,
    decreases s.len(),
{
    if s.len() > 0 && s.first() != c {
        lemma_first_at_bounds(s.drop_first(), c);
        assert forall|j: int| 0 <= j < first_at(s, c) implies s[j] != c by {
            if j > 0 {
                assert(s.drop_first()[j - 1] != c);
            }
        };
    }
}

/// An ASCII whitespace character, the separator this crate's parsers
/// recognize.
pub open spec fn is_space(c: char) -> bool {
    c == ' ' || c == '\t' || c == '\n' || c == '\r' || c == '\u{b}' || c == '\u{c}'
}

/// Whether a character is recognized whitespace.
pub fn is_space_char(c: char) -> (r: bool)
    ensures
        r == is_space(c),
{
    c == ' ' || c == '\t' || c == '\n' || c == '\r' || c == '\u{b}' || c == '\u{c}'
}

/// The suffix after the maximal leading run of characters satisfying `p`.
pub open spec fn trim_start_by(s: Seq<char>, p: spec_fn(char) -> bool) -> Seq<char>
    decreases s.len(),
{
    if s.len() > 0 && p(s.first()) {
        trim_start_by(s.drop_first(), p)
    } else {
        s
    }
}

/// The prefix before the maximal trailing run of characters satisfying `p`.
pub open spec fn trim_end_by(s: Seq<char>, p: spec_fn(char) -> bool) -> Seq<char>
    decreases s.len(),
{
    if s.len() > 0 && p(s.last()) {
        trim_end_by(s.drop_last(), p)
    } else {
        s
    }
}

/// A string without its surrounding whitespace.
pub open spec fn spec_trim(s: Seq<char>) -> Seq<char> {
    trim_end_by(trim_start_by(s, |c: char| is_space(c)), |c: char| is_space(c))
}

/// The suffix after the maximal leading run of the character `q`.
pub open spec fn trim_start_char(s: Seq<char>, q: char) -> Seq<char>
    decreases s.len(),
{
    if s.len() > 0 && s.first() == q {
        trim_start_char(s.drop_first(), q)
    } else {
        s
    }
}

/// The prefix before the maximal trailing run of the character `q`.
pub open spec fn trim_end_char(s: Seq<char>, q: char) -> Seq<char>
    decreases s.len(),
{
    if s.len() > 0 && s.last() == q {
        trim_end_char(s.drop_last(), q)
    } else {
        s
    }
}

/// A string without its surrounding runs of the character `q`.
pub open spec fn spec_trim_char(s: Seq<char>, q: char) -> Seq<char> {
    trim_end_char(trim_start_char(s, q), q)
}

/// Dropping a counted leading run of `q` is what `trim_start_char` does.
pub proof fn lemma_trim_start_char(s: Seq<char>, q: char, lo: int)
    requires
        0 <= lo <= s.len(),
        forall|j: int| 0 <= j < lo ==> s[j] == q,
        lo == s.len() || s[lo] != q,
    ensures
        trim_start_char(s, q) == s.skip(lo),
    decreases lo,
{
    if lo == 0 {
        assert(s.skip(0) =~= s);
    } else {
        assert forall|j: int| 0 <= j < lo - 1 implies s.drop_first()[j] == q by {
            assert(s[j + 1] == q);
        };
        lemma_trim_start_char(s.drop_first(), q, lo - 1);
        assert(s.drop_first().skip(lo - 1) =~= s.skip(lo));
    }
}

/// Dropping a counted trailing run of `q` is what `trim_end_char` does.
pub proof fn lemma_trim_end_char(s: Seq<char>, q: char, hi: int)
    requires
        0 <= hi <= s.len(),
        forall|j: int| hi <= j < s.len() ==> s[j] == q,
        hi == 0 || s[hi - 1] != q,
    ensures
        trim_end_char(s, q) == s.take(hi),
    decreases s.len() - hi,
{
    if hi == s.len() {
        assert(s.take(hi) =~= s);
    } else {
        lemma_trim_end_char(s.drop_last(), q, hi);
        assert(s.drop_last().take(hi) =~= s.take(hi));
    }
}

/// Dropping a counted leading run satisfying `p` is what `trim_start_by`
/// does.
pub proof fn lemma_trim_start_by(s: Seq<char>, p: spec_fn(char) -> bool, lo: int)
    requires
        0 <= lo <= s.len(),
        forall|j: int| 0 <= j < lo ==> p(s[j]),
        lo == s.len() || !p(s[lo]),
    ensures
        trim_start_by(s, p) == s.skip(lo),
    decreases lo,
{
    if lo == 0 {
        assert(s.skip(0) =~= s);
    } else {
        assert forall|j: int| 0 <= j < lo - 1 implies p(s.drop_first()[j]) by {
            assert(p(s[j + 1]));
        };
        lemma_trim_start_by(s.drop_first(), p, lo - 1);
        assert(s.drop_first().skip(lo - 1) =~= s.skip(lo));
    }
}

/// Dropping a counted trailing run satisfying `p` is what `trim_end_by`
/// does.
pub proof fn lemma_trim_end_by(s: Seq<char>, p: spec_fn(char) -> bool, hi: int)
    requires
        0 <= hi <= s.len(),
        forall|j: int| hi <= j < s.len() ==> p(s[j]),
        hi == 0 || !p(s[hi - 1]),
    ensures
        trim_end_by(s, p) == s.take(hi),
    decreases s.len() - hi,
{
    if hi == s.len() {
        assert(s.take(hi) =~= s);
    } else {
        lemma_trim_end_by(s.drop_last(), p, hi);
        assert(s.drop_last().take(hi) =~= s.take(hi));
    }
}

/// A slice without its surrounding whitespace.
#[verifier::loop_isolation(false)]
pub fn trim<'a>(s: &'a str) -> (r: &'a str)
    ensures
        r@ == spec_trim(s@),
{
    let m = s.unicode_len();
    let mut lo: usize = 0;
    while lo < m && is_space_char(s.get_char(lo))
        invariant
            lo <= m,
            m == s@.len(),
            forall|j: int| 0 <= j < lo ==> is_space(s@[j]),
        decreases m - lo,
    {
        lo += 1;
    }
    let mut hi: usize = m;
    while hi > lo && is_space_char(s.get_char(hi - 1))
        invariant
            lo <= hi <= m,
            forall|j: int| hi <= j < m ==> is_space(s@[j]),
        decreases hi,
    {
        hi -= 1;
    }
    proof {
        let p = |c: char| is_space(c);
        lemma_trim_start_by(s@, p, lo as int);
        let t = s@.skip(lo as int);
        assert forall|j: int| hi - lo <= j < t.len() implies p(t[j]) by {
            assert(is_space(s@[lo + j]));
        };
        if hi > lo {
            assert(!p(t[hi - lo - 1]));
        }
        lemma_trim_end_by(t, p, hi - lo);
        assert(t.take(hi - lo) =~= s@.subrange(lo as int, hi as int));
    }
    s.substring_char(lo, hi)
}

/// A slice without its surrounding runs of the character `q`.
#[verifier::loop_isolation(false)]
pub fn trim_char<'a>(s: &'a str, q: char) -> (r: &'a str)
    ensures
        r@ == spec_trim_char(s@, q),
{
    let m = s.unicode_len();
    let mut lo: usize = 0;
    while lo < m && s.get_char(lo) == q
        invariant
            lo <= m,
            m == s@.len(),
            forall|j: int| 0 <= j < lo ==> s@[j] == q,
        decreases m - lo,
    {
        lo += 1;
    }
    let mut hi: usize = m;
    while hi > lo && s.get_char(hi - 1) == q
        invariant
            lo <= hi <= m,
            forall|j: int| hi <= j < m ==> s@[j] == q,
        decreases hi,
    {
        hi -= 1;
    }
    proof {
        lemma_trim_start_char(s@, q, lo as int);
        let t = s@.skip(lo as int);
        assert forall|j: int| hi - lo <= j < t.len() implies t[j] == q by {
            assert(s@[lo + j] == q);
        };
        if hi > lo {
            assert(t[hi - lo - 1] != q);
        }
        lemma_trim_end_char(t, q, hi - lo);
        assert(t.take(hi - lo) =~= s@.subrange(lo as int, hi as int));
    }
    s.substring_char(lo, hi)
}

/// The index of the last occurrence of `c` in `s`, if any.
pub open spec fn last_at(s: Seq<char>, c: char) -> Option<int>
    decreases s.len(),
{
    if s.len() == 0 {
        None
    } else if s.last() == c {
        Some(s.len() - 1)
    } else {
        last_at(s.drop_last(), c)
    }
}

/// `last_at` is the unique occurrence with none after it.
pub proof fn lemma_last_at_some(s: Seq<char>, c: char, k: int)
    requires
        0 <= k < s.len(),
        s[k] == c,
        forall|j: int| k < j < s.len() ==> s[j] != c,
    ensures
        last_at(s, c) == Some(k),
    decreases s.len(),
{
    if k < s.len() - 1 {
        assert forall|j: int| k < j < s.drop_last().len() implies s.drop_last()[j] != c by {
            assert(s[j] != c);
        };
        lemma_last_at_some(s.drop_last(), c, k);
    }
}

/// A string with no occurrence has no last occurrence.
pub proof fn lemma_last_at_none(s: Seq<char>, c: char)
    requires
        forall|j: int| 0 <= j < s.len() ==> s[j] != c,
    ensures
        last_at(s, c) is None,
    decreases s.len(),
{
    if s.len() > 0 {
        lemma_last_at_none(s.drop_last(), c);
    }
}

/// Index of the last occurrence of `c` strictly before `upto`.
#[verifier::loop_isolation(false)]
pub fn rfind_char_before(s: &str, upto: usize, c: char) -> (r: Option<usize>)
    requires
        upto <= s@.len(),
    ensures
        match r {
            Some(i) => i < upto && s@[i as int] == c && forall|j: int| i < j < upto ==> s@[j] != c,
            None => forall|j: int| 0 <= j < upto ==> s@[j] != c,
        },
{
    let mut i: usize = upto;
    while i > 0
        invariant
            i <= upto,
            upto <= s@.len(),
            forall|j: int| i <= j < upto ==> s@[j] != c,
        decreases i,
    {
        i -= 1;
        if s.get_char(i) == c {
            return Some(i);
        }
    }
    None
}

/// A line with one trailing carriage return removed.
pub open spec fn strip_cr(line: Seq<char>) -> Seq<char> {
    if line.len() > 0 && line.last() == '\r' {
        line.drop_last()
    } else {
        line
    }
}

/// The lines of a text, as `str::lines` yields them: separated by `\n`,
/// each with one trailing `\r` removed, with no final empty line after a
/// trailing newline.
pub open spec fn spec_lines(s: Seq<char>) -> Seq<Seq<char>>
    decreases s.len(),
    via spec_lines_decreases
{
    if s.len() == 0 {
        Seq::empty()
    } else {
        let i = first_at(s, '\n');
        if i == s.len() {
            seq![strip_cr(s)]
        } else {
            seq![strip_cr(s.take(i))] + spec_lines(s.skip(i + 1))
        }
    }
}

#[via_fn]
proof fn spec_lines_decreases(s: Seq<char>) {
    lemma_first_at_bounds(s, '\n');
}

/// Split a text into its lines.
#[verifier::loop_isolation(false)]
pub fn split_lines(s: &str) -> (r: Vec<String>)
    ensures
        r.deep_view() == spec_lines(s@),
{
    let m = s.unicode_len();
    let mut out: Vec<String> = Vec::new();
    let mut pos: usize = 0;
    proof {
        assert(s@.skip(0) =~= s@);
        assert(out.deep_view() + spec_lines(s@) =~= spec_lines(s@));
    }
    while pos < m
        invariant
            pos <= m,
            m == s@.len(),
            spec_lines(s@) == out.deep_view() + spec_lines(s@.skip(pos as int)),
        decreases m - pos,
    {
        let j = match find_char_from(s, pos, '\n') {
            Some(p) => p,
            None => m,
        };
        let end = if j > pos && s.get_char(j - 1) == '\r' {
            j - 1
        } else {
            j
        };
        let line = s.substring_char(pos, end);
        let ghost out0 = out.deep_view();
        out.push(line.to_owned());
        proof {
            let suffix = s@.skip(pos as int);
            assert forall|k: int| 0 <= k < j - pos implies suffix[k] != '\n' by {
                assert(s@[pos + k] != '\n');
            };
            if j < m {
                assert(suffix[j - pos] == '\n');
            }
            lemma_first_at(suffix, '\n', j - pos);
            assert(suffix.take(j - pos) =~= s@.subrange(pos as int, j as int));
            assert(strip_cr(suffix.take(j - pos)) =~= s@.subrange(pos as int, end as int));
            assert(out.deep_view() =~= out0 + seq![s@.subrange(pos as int, end as int)]);
            if j < m {
                assert(suffix.skip(j - pos + 1) =~= s@.skip(j + 1));
                assert(spec_lines(suffix) == seq![strip_cr(suffix.take(j - pos))] + spec_lines(
                    suffix.skip(j - pos + 1),
                ));
                assert(spec_lines(s@) =~= out.deep_view() + spec_lines(s@.skip(j + 1)));
            } else {
                assert(strip_cr(suffix) =~= s@.subrange(pos as int, end as int));
                assert(spec_lines(suffix) == seq![strip_cr(suffix)]);
                assert(spec_lines(s@.skip(m as int)) =~= Seq::<Seq<char>>::empty());
                assert(spec_lines(s@) =~= out.deep_view() + spec_lines(s@.skip(m as int)));
            }
        }
        if j == m {
            pos = m;
        } else {
            pos = j + 1;
        }
    }
    proof {
        assert(spec_lines(s@.skip(pos as int)) =~= Seq::<Seq<char>>::empty());
        assert(out.deep_view() =~= spec_lines(s@));
    }
    out
}

} // verus!
