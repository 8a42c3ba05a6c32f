//! Character-level text primitives: substring search, whitespace trimming,
//! and their specifications over `Seq<char>`.
use vstd::prelude::*;

verus! {

// ---------------------------------------------------------------------------
// Specifications
// ---------------------------------------------------------------------------

/// `pat` occurs in `s` starting at character index `i`.
pub open spec fn occurs_at(s: Seq<char>, pat: Seq<char>, i: int) -> bool {
    &&& 0 <= i
    &&& i + pat.len() <= s.len()
    &&& forall|j: int| 0 <= j < pat.len() ==> s[i + j] == #[trigger] pat[j]
}

/// `c` does not occur in `s`.
pub open spec fn has_no_char(s: Seq<char>, c: char) -> bool {
    forall|i: int| 0 <= i < s.len() ==> #[trigger] s[i] != c
}

/// `pat` occurs somewhere in `s`.
pub open spec fn has_substr(s: Seq<char>, pat: Seq<char>) -> bool {
    exists|i: int| occurs_at(s, pat, i)
}

/// The first index `>= k` at which `pat` occurs in `s`.
pub open spec fn find_from(s: Seq<char>, pat: Seq<char>, k: nat) -> Option<nat>
    decreases s.len() - k,
{
    if s.len() < k + pat.len() {
        None
    } else if occurs_at(s, pat, k as int) {
        Some(k)
    } else {
        find_from(s, pat, k + 1)
    }
}

/// The first index at which `pat` occurs in `s`.
pub open spec fn find(s: Seq<char>, pat: Seq<char>) -> Option<nat> {
    find_from(s, pat, 0)
}

/// The last index `<= k` at which `pat` occurs in `s`.
pub open spec fn rfind_below(s: Seq<char>, pat: Seq<char>, k: int) -> Option<nat>
    decreases k + 1,
{
    if k < 0 {
        None
    } else if occurs_at(s, pat, k) {
        Some(k as nat)
    } else {
        rfind_below(s, pat, k - 1)
    }
}

/// The last index at which `pat` occurs in `s`.
pub open spec fn rfind(s: Seq<char>, pat: Seq<char>) -> Option<nat> {
    rfind_below(s, pat, s.len() - pat.len())
}

/// Unicode `White_Space`, the set of characters that `str::trim` removes.
pub open spec fn is_whitespace(c: char) -> bool {
    ||| ('\u{9}' <= c && c <= '\u{d}')
    ||| c == ' '
    ||| c == '\u{85}'
    ||| c == '\u{a0}'
    ||| c == '\u{1680}'
    ||| ('\u{2000}' <= c && c <= '\u{200a}')
    ||| c == '\u{2028}'
    ||| c == '\u{2029}'
    ||| c == '\u{202f}'
    ||| c == '\u{205f}'
    ||| c == '\u{3000}'
}

/// `s` without its leading whitespace.
pub open spec fn trim_start(s: Seq<char>) -> Seq<char>
    decreases s.len(),
{
    if s.len() > 0 && is_whitespace(s[0]) {
        trim_start(s.drop_first())
    } else {
        s
    }
}

/// `s` without its trailing whitespace.
pub open spec fn trim_end(s: Seq<char>) -> Seq<char>
    decreases s.len(),
{
    if s.len() > 0 && is_whitespace(s.last()) {
        trim_end(s.drop_last())
    } else {
        s
    }
}

/// `s` without leading and trailing whitespace.
pub open spec fn trim(s: Seq<char>) -> Seq<char> {
    trim_end(trim_start(s))
}

/// `s` without its leading `'\n'` characters.
pub open spec fn strip_leading_newlines(s: Seq<char>) -> Seq<char>
    decreases s.len(),
{
    if s.len() > 0 && s[0] == '\n' {
        strip_leading_newlines(s.drop_first())
    } else {
        s
    }
}

/// An optional machine index seen as an optional natural number.
pub open spec fn opt_nat(o: Option<usize>) -> Option<nat> {
    match o {
        Some(i) => Some(i as nat),
        None => None,
    }
}

// ---------------------------------------------------------------------------
// Lemmas
// ---------------------------------------------------------------------------

/// `find_from` returns the least occurrence at or after `k`, and `None` only
/// when there is none.
pub proof fn lemma_find_from(s: Seq<char>, pat: Seq<char>, k: nat)
    ensures
        match find_from(s, pat, k) {
            Some(i) => {
                &&& k <= i
                &&& occurs_at(s, pat, i as int)
                &&& forall|j: int| k <= j < i ==> !occurs_at(s, pat, j)
            },
            None => forall|j: int| k <= j ==> !occurs_at(s, pat, j),
        },
    decreases s.len() - k,
{
    if s.len() < k + pat.len() {
    } else if occurs_at(s, pat, k as int) {
    } else {
        lemma_find_from(s, pat, k + 1);
    }
}

/// `find` returns the least occurrence, and `None` only when there is none.
pub proof fn lemma_find(s: Seq<char>, pat: Seq<char>)
    ensures
        match find(s, pat) {
            Some(i) => {
                &&& occurs_at(s, pat, i as int)
                &&& forall|j: int| 0 <= j < i ==> !occurs_at(s, pat, j)
            },
            None => !has_substr(s, pat),
        },
        find(s, pat) is Some <==> has_substr(s, pat),
{
    lemma_find_from(s, pat, 0);
}

/// `rfind_below` returns the greatest occurrence at or before `k`.
pub proof fn lemma_rfind_below(s: Seq<char>, pat: Seq<char>, k: int)
    ensures
        match rfind_below(s, pat, k) {
            Some(i) => {
                &&& i <= k
                &&& occurs_at(s, pat, i as int)
                &&& forall|j: int| i < j <= k ==> !occurs_at(s, pat, j)
            },
            None => forall|j: int| j <= k ==> !occurs_at(s, pat, j),
        },
    decreases k + 1,
{
    if k < 0 {
    } else if occurs_at(s, pat, k) {
    } else {
        lemma_rfind_below(s, pat, k - 1);
    }
}

/// `rfind` returns the greatest occurrence, and `None` only when there is none.
pub proof fn lemma_rfind(s: Seq<char>, pat: Seq<char>)
    ensures
        match rfind(s, pat) {
            Some(i) => {
                &&& occurs_at(s, pat, i as int)
                &&& forall|j: int| i < j ==> !occurs_at(s, pat, j)
            },
            None => !has_substr(s, pat),
        },
        rfind(s, pat) is Some <==> has_substr(s, pat),
{
    lemma_rfind_below(s, pat, s.len() - pat.len());
}

/// An occurrence inside `a` is an occurrence in `a + b` at the same place.
pub proof fn lemma_occurs_in_prefix(a: Seq<char>, b: Seq<char>, pat: Seq<char>, i: int)
    requires
        occurs_at(a, pat, i),
    ensures
        occurs_at(a + b, pat, i),
{
    assert forall|j: int| 0 <= j < pat.len() implies (a + b)[i + j] == #[trigger] pat[j] by {
        assert(a[i + j] == pat[j]);
    }
}

/// An occurrence inside `b` is an occurrence in `a + b`, shifted by `a.len()`.
pub proof fn lemma_occurs_in_suffix(a: Seq<char>, b: Seq<char>, pat: Seq<char>, i: int)
    requires
        occurs_at(b, pat, i),
    ensures
        occurs_at(a + b, pat, a.len() + i),
{
    assert forall|j: int| 0 <= j < pat.len() implies (a + b)[a.len() + i + j] == #[trigger] pat[j] by {
        assert(b[i + j] == pat[j]);
    }
}

/// Every sequence occurs in itself at index 0.
pub proof fn lemma_occurs_self(s: Seq<char>)
    ensures
        occurs_at(s, s, 0),
{
}

// ---------------------------------------------------------------------------
// Executable operations
// ---------------------------------------------------------------------------

/// The characters of `s`, in order, as a vector.
pub fn chars_of(s: &str) -> (v: Vec<char>)
    ensures
        v@ == s@,
{
    let mut v: Vec<char> = Vec::new();
    for c in it: s.chars()
        invariant
            v@ == it.seq().take(it.index() as int),
    {
        v.push(c);
    }
    v
}

/// Whether `pat` occurs in `s` at index `i`.
pub fn matches_at(s: &Vec<char>, pat: &Vec<char>, i: usize) -> (r: bool)
    requires
        i + pat@.len() <= s@.len(),
    ensures
        r == occurs_at(s@, pat@, i as int),
{
    let n = s.len();
    let mut j: usize = 0;
    while j < pat.len()
        invariant
            n == s@.len(),
            j <= pat@.len(),
            i + pat@.len() <= s@.len(),
            forall|m: int| 0 <= m < j ==> s@[i + m] == #[trigger] pat@[m],
        decreases pat@.len() - j,
    {
        if s[i + j] != pat[j] {
            return false;
        }
        j = j + 1;
    }
    true
}

/// The first index `>= k` at which `pat` occurs in `s`.
pub fn find_from_in(s: &Vec<char>, pat: &Vec<char>, k: usize) -> (r: Option<usize>)
    ensures
        opt_nat(r) == find_from(s@, pat@, k as nat),
{
    if pat.len() > s.len() {
        return None;
    }
    let last = s.len() - pat.len();
    let mut i = k;
    while i <= last
        invariant
            last + pat@.len() == s@.len(),
            k <= i,
            find_from(s@, pat@, k as nat) == find_from(s@, pat@, i as nat),
        decreases last + 1 - i,
    {
        if matches_at(s, pat, i) {
            return Some(i);
        }
        if i == last {
            assert(find_from(s@, pat@, (i + 1) as nat) is None);
            return None;
        }
        i = i + 1;
    }
    None
}

/// The first index at which `pat` occurs in `s`.
pub fn find_in(s: &Vec<char>, pat: &Vec<char>) -> (r: Option<usize>)
    ensures
        opt_nat(r) == find(s@, pat@),
{
    find_from_in(s, pat, 0)
}

/// Whether `pat` occurs anywhere in `s`.
pub fn has_substr_in(s: &Vec<char>, pat: &Vec<char>) -> (r: bool)
    ensures
        r == has_substr(s@, pat@),
{
    proof {
        lemma_find(s@, pat@);
    }
    find_in(s, pat).is_some()
}

/// The last index at which `pat` occurs in `s`.
pub fn rfind_in(s: &Vec<char>, pat: &Vec<char>) -> (r: Option<usize>)
    ensures
        opt_nat(r) == rfind(s@, pat@),
{
    if pat.len() > s.len() {
        return None;
    }
    let mut i = s.len() - pat.len();
    loop
        invariant
            i + pat@.len() <= s@.len(),
            rfind(s@, pat@) == rfind_below(s@, pat@, i as int),
        decreases i,
    {
        if matches_at(s, pat, i) {
            return Some(i);
        }
        if i == 0 {
            assert(rfind_below(s@, pat@, -1) is None);
            return None;
        }
        i = i - 1;
    }
}

/// Bounds `(a, b)` such that `s[a..b]` is `s[from..to]` trimmed of whitespace.
pub fn trim_range(s: &Vec<char>, from: usize, to: usize) -> (r: (usize, usize))
    requires
        from <= to <= s@.len(),
    ensures
        from <= r.0 <= r.1 <= to,
        s@.subrange(r.0 as int, r.1 as int) == trim(s@.subrange(from as int, to as int)),
{
    let mut a = from;
    while a < to && is_whitespace_char(s[a])
        invariant
            from <= a <= to <= s@.len(),
            trim_start(s@.subrange(from as int, to as int)) == trim_start(
                s@.subrange(a as int, to as int),
            ),
        decreases to - a,
    {
        assert(s@.subrange(a as int, to as int).drop_first() =~= s@.subrange(a + 1, to as int));
        a = a + 1;
    }
    assert(trim_start(s@.subrange(a as int, to as int)) == s@.subrange(a as int, to as int));
    let mut b = to;
    while b > a && is_whitespace_char(s[b - 1])
        invariant
            a <= b <= to <= s@.len(),
            trim_end(s@.subrange(a as int, to as int)) == trim_end(s@.subrange(a as int, b as int)),
        decreases b - a,
    {
        assert(s@.subrange(a as int, b as int).drop_last() =~= s@.subrange(a as int, b - 1));
        b = b - 1;
    }
    assert(trim_end(s@.subrange(a as int, b as int)) == s@.subrange(a as int, b as int));
    (a, b)
}

/// The index where the run of `'\n'` starting at `from` ends, so that
/// `s[r..]` is `s[from..]` without its leading newlines.
pub fn skip_newlines(s: &Vec<char>, from: usize) -> (r: usize)
    requires
        from <= s@.len(),
    ensures
        from <= r <= s@.len(),
        s@.subrange(r as int, s@.len() as int) == strip_leading_newlines(
            s@.subrange(from as int, s@.len() as int),
        ),
{
    let mut a = from;
    while a < s.len() && s[a] == '\n'
        invariant
            from <= a <= s@.len(),
            strip_leading_newlines(s@.subrange(from as int, s@.len() as int))
                == strip_leading_newlines(s@.subrange(a as int, s@.len() as int)),
        decreases s@.len() - a,
    {
        assert(s@.subrange(a as int, s@.len() as int).drop_first() =~= s@.subrange(
            a + 1,
            s@.len() as int,
        ));
        a = a + 1;
    }
    a
}

/// Whether `c` is Unicode `White_Space`.
pub fn is_whitespace_char(c: char) -> (r: bool)
    ensures
        r == is_whitespace(c),
{
    ('\u{9}' <= c && c <= '\u{d}') || c == ' ' || c == '\u{85}' || c == '\u{a0}' || c
        == '\u{1680}' || ('\u{2000}' <= c && c <= '\u{200a}') || c == '\u{2028}' || c
        == '\u{2029}' || c == '\u{202f}' || c == '\u{205f}' || c == '\u{3000}'
}

} // verus!
