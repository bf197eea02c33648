//! Character-level helpers shared by the request codec and the MIME table:
//! ASCII whitespace scanning, token splitting and trimming.

use vstd::prelude::*;

verus! {

/// The ASCII whitespace characters, as `split_ascii_whitespace` counts them.
pub open spec fn is_space(c: char) -> bool {
    c == ' ' || c == '\t' || c == '\n' || c == '\u{c}' || c == '\r'
}

/// The first index at or after `i` holding a non-space character, or the end.
pub open spec fn skip_spaces(s: Seq<char>, i: int) -> int
    decreases s.len() - i,
{
    if i < 0 || i >= s.len() {
        i
    } else if is_space(s[i]) {
        skip_spaces(s, i + 1)
    } else {
        i
    }
}

/// The first index at or after `i` holding `stop` or a space (spaces stop a
/// token only when `spaces_stop` is set), or the end.
pub open spec fn scan_to(s: Seq<char>, i: int, stop: char, spaces_stop: bool) -> int
    decreases s.len() - i,
{
    if i < 0 || i >= s.len() {
        i
    } else if s[i] == stop || (spaces_stop && is_space(s[i])) {
        i
    } else {
        scan_to(s, i + 1, stop, spaces_stop)
    }
}

/// The end of the whitespace-separated token starting at `i`.
pub open spec fn token_end(s: Seq<char>, i: int) -> int {
    scan_to(s, i, ' ', true)
}

pub proof fn lemma_skip_spaces(s: Seq<char>, i: int)
    requires
        0 <= i <= s.len(),
    ensures
        i <= skip_spaces(s, i) <= s.len(),
        skip_spaces(s, i) < s.len() ==> !is_space(s[skip_spaces(s, i)]),
        forall|k: int| i <= k < skip_spaces(s, i) ==> is_space(s[k]),
    decreases s.len() - i,
{
    if i < s.len() && is_space(s[i]) {
        lemma_skip_spaces(s, i + 1);
    }
}

pub proof fn lemma_scan_to(s: Seq<char>, i: int, stop: char, spaces_stop: bool)
    requires
        0 <= i <= s.len(),
    ensures
        i <= scan_to(s, i, stop, spaces_stop) <= s.len(),
        scan_to(s, i, stop, spaces_stop) < s.len() ==> {
            let j = scan_to(s, i, stop, spaces_stop);
            s[j] == stop || (spaces_stop && is_space(s[j]))
        },
        forall|k: int|
            i <= k < scan_to(s, i, stop, spaces_stop) ==> s[k] != stop && !(spaces_stop
                && is_space(s[k])),
    decreases s.len() - i,
{
    if i < s.len() && !(s[i] == stop || (spaces_stop && is_space(s[i]))) {
        lemma_scan_to(s, i + 1, stop, spaces_stop);
    }
}

/// Whether `c` counts as ASCII whitespace.
pub fn space(c: char) -> (r: bool)
    ensures
        r == is_space(c),
{
    c == ' ' || c == '\t' || c == '\n' || c == '\u{c}' || c == '\r'
}

/// The first index at or after `i` holding a non-space character, or the end.
pub fn find_non_space(s: &str, i: usize, n: usize) -> (r: usize)
    requires
        i <= n == s@.len(),
    ensures
        r == skip_spaces(s@, i as int),
        i <= r <= n,
{
    let mut j = i;
    while j < n && space(s.get_char(j))
        invariant
            i <= j <= n == s@.len(),
            skip_spaces(s@, i as int) == skip_spaces(s@, j as int),
        decreases n - j,
    {
        j = j + 1;
    }
    j
}

/// The first index at or after `i` holding `stop` (or a space when
/// `spaces_stop`), or the end.
pub fn find_stop(s: &str, i: usize, n: usize, stop: char, spaces_stop: bool) -> (r: usize)
    requires
        i <= n == s@.len(),
    ensures
        r == scan_to(s@, i as int, stop, spaces_stop),
        i <= r <= n,
{
    let mut j = i;
    while j < n && !(s.get_char(j) == stop || (spaces_stop && space(s.get_char(j))))
        invariant
            i <= j <= n == s@.len(),
            scan_to(s@, i as int, stop, spaces_stop) == scan_to(s@, j as int, stop, spaces_stop),
        decreases n - j,
    {
        j = j + 1;
    }
    j
}

/// The index after the last non-space character before `j`, or 0.
pub open spec fn rskip_spaces(s: Seq<char>, j: int) -> int
    decreases j,
{
    if j <= 0 || j > s.len() {
        0
    } else if is_space(s[j - 1]) {
        rskip_spaces(s, j - 1)
    } else {
        j
    }
}

pub proof fn lemma_rskip_spaces(s: Seq<char>, j: int)
    requires
        0 <= j <= s.len(),
    ensures
        0 <= rskip_spaces(s, j) <= j,
        rskip_spaces(s, j) > 0 ==> !is_space(s[rskip_spaces(s, j) - 1]),
        forall|k: int| rskip_spaces(s, j) <= k < j ==> is_space(s[k]),
    decreases j,
{
    if 0 < j <= s.len() && is_space(s[j - 1]) {
        lemma_rskip_spaces(s, j - 1);
    }
}

/// What `s` is with ASCII whitespace removed from both ends.
pub open spec fn trimmed(s: Seq<char>) -> Seq<char> {
    let a = skip_spaces(s, 0);
    if a == s.len() {
        Seq::empty()
    } else {
        s.subrange(a, rskip_spaces(s, s.len() as int))
    }
}

/// The comma-separated pieces of `s` from `i` to the end, each trimmed.
pub open spec fn comma_values(s: Seq<char>, i: int) -> Seq<Seq<char>>
    decreases s.len() - i,
    when 0 <= i <= s.len()
    via comma_values_decreases
{
    let c = scan_to(s, i, ',', false);
    if c == s.len() {
        seq![trimmed(s.subrange(i, c))]
    } else {
        seq![trimmed(s.subrange(i, c))] + comma_values(s, c + 1)
    }
}

#[via_fn]
proof fn comma_values_decreases(s: Seq<char>, i: int) {
    lemma_scan_to(s, i, ',', false);
}

/// The whitespace-separated tokens of `s` from `i` to the end.
pub open spec fn tokens_from(s: Seq<char>, i: int) -> Seq<Seq<char>>
    decreases s.len() - i,
    when 0 <= i <= s.len()
    via tokens_from_decreases
{
    let a = skip_spaces(s, i);
    if a == s.len() {
        Seq::empty()
    } else {
        seq![s.subrange(a, token_end(s, a))] + tokens_from(s, token_end(s, a))
    }
}

#[via_fn]
proof fn tokens_from_decreases(s: Seq<char>, i: int) {
    lemma_skip_spaces(s, i);
    let a = skip_spaces(s, i);
    if a < s.len() {
        lemma_scan_to(s, a, ' ', true);
        assert(!is_space(s[a]));
        assert(scan_to(s, a, ' ', true) != a);
    }
}

/// The index of the last `c` before `j` in `s`, or -1.
pub open spec fn rfind(s: Seq<char>, j: int, c: char) -> int
    decreases j,
{
    if j <= 0 || j > s.len() {
        -1
    } else if s[j - 1] == c {
        j - 1
    } else {
        rfind(s, j - 1, c)
    }
}

/// Whether the characters of `p` start `s`.
pub fn is_prefix(p: &str, s: &str) -> (r: bool)
    ensures
        r == p@.is_prefix_of(s@),
{
    let n = p.unicode_len();
    let m = s.unicode_len();
    if n > m {
        return false;
    }
    let mut i: usize = 0;
    while i < n
        invariant
            i <= n == p@.len() && n <= m == s@.len(),
            forall|k: int| 0 <= k < i ==> p@[k] == s@[k],
        decreases n - i,
    {
        if p.get_char(i) != s.get_char(i) {
            return false;
        }
        i = i + 1;
    }
    proof {
        assert(p@ =~= s@.subrange(0, p@.len() as int));
    }
    true
}

/// Whether two string slices hold the same characters.
pub fn str_eq(a: &str, b: &str) -> (r: bool)
    ensures
        r == (a@ == b@),
{
    let n = a.unicode_len();
    let m = b.unicode_len();
    if n != m {
        return false;
    }
    let mut i: usize = 0;
    while i < n
        invariant
            i <= n == a@.len() && n == m == b@.len(),
            forall|k: int| 0 <= k < i ==> a@[k] == b@[k],
        decreases n - i,
    {
        if a.get_char(i) != b.get_char(i) {
            return false;
        }
        i = i + 1;
    }
    proof {
        assert(a@ =~= b@);
    }
    true
}

/// A copy of `s` between `from` and `to`.
pub fn copy_range(s: &str, from: usize, to: usize) -> (r: String)
    requires
        from <= to <= s@.len(),
    ensures
        r@ == s@.subrange(from as int, to as int),
{
    let sub = s.substring_char(from, to);
    sub.to_owned()
}

/// A copy of `s` with ASCII whitespace removed from both ends.
pub fn trim(s: &str) -> (r: String)
    ensures
        r@ == trimmed(s@),
{
    let n = s.unicode_len();
    let a = find_non_space(s, 0, n);
    proof {
        lemma_skip_spaces(s@, 0);
    }
    if a == n {
        let r = String::new();
        proof {
            assert(r@ =~= trimmed(s@));
        }
        r
    } else {
        let mut b = n;
        while b > 0 && space(s.get_char(b - 1))
            invariant
                0 <= b <= n == s@.len(),
                rskip_spaces(s@, n as int) == rskip_spaces(s@, b as int),
            decreases b,
        {
            b = b - 1;
        }
        proof {
            lemma_rskip_spaces(s@, n as int);
            assert(rskip_spaces(s@, b as int) == b);
            assert(a < n && !is_space(s@[a as int]));
            assert(a < b) by {
                if b <= a {
                    assert(is_space(s@[a as int]));
                }
            }
        }
        copy_range(s, a, b)
    }
}

} // verus!
