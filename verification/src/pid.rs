//! Reading the labwc process id from the text of `$LABWC_PID`.
use vstd::prelude::*;

use crate::text::{chars_of, trim, trim_range};

verus! {

/// Why the text of `$LABWC_PID` does not name a process to signal.
#[derive(Debug, Clone, Copy, PartialEq, Eq, Structural)]
pub enum PidError {
    /// The trimmed text is not a decimal `i32`.
    NotANumber,
    /// The text is a number, but not a positive one.
    NotPositive(i32),
}

/// `c` is an ASCII decimal digit.
pub open spec fn is_digit(c: char) -> bool {
    '0' <= c && c <= '9'
}

/// Every character of `d` is an ASCII decimal digit.
pub open spec fn all_digits(d: Seq<char>) -> bool {
    forall|i: int| 0 <= i < d.len() ==> #[trigger] is_digit(d[i])
}

/// The number written by the decimal digits `d` (most significant first).
pub open spec fn digits_value(d: Seq<char>) -> int
    decreases d.len(),
{
    if d.len() == 0 {
        0
    } else {
        digits_value(d.drop_last()) * 10 + (d.last() as int - '0' as int)
    }
}

/// Whether the text has a leading sign character.
pub open spec fn has_sign(s: Seq<char>) -> bool {
    s.len() > 0 && (s[0] == '+' || s[0] == '-')
}

/// The value of `s` read as an `i32` the way `str::parse::<i32>` reads it:
/// an optional `+` or `-`, then one or more decimal digits, with the value
/// in the range of `i32`.
pub open spec fn spec_parse_i32(s: Seq<char>) -> Option<int> {
    let d = if has_sign(s) {
        s.drop_first()
    } else {
        s
    };
    let v = if has_sign(s) && s[0] == '-' {
        -digits_value(d)
    } else {
        digits_value(d)
    };
    if d.len() == 0 || !all_digits(d) || v < i32::MIN || v > i32::MAX {
        None
    } else {
        Some(v)
    }
}

/// The outcome of reading `$LABWC_PID` from its text `s`: the text, trimmed
/// of whitespace, must be an `i32`, and a positive one.
pub open spec fn spec_parse_labwc_pid(s: Seq<char>) -> Result<i32, PidError> {
    match spec_parse_i32(trim(s)) {
        None => Err(PidError::NotANumber),
        Some(v) => if v <= 0 {
            Err(PidError::NotPositive(v as i32))
        } else {
            Ok(v as i32)
        },
    }
}

/// The value of a digit string is never negative.
pub proof fn lemma_digits_value_nonneg(d: Seq<char>)
    requires
        all_digits(d),
    ensures
        digits_value(d) >= 0,
    decreases d.len(),
{
    if d.len() > 0 {
        assert(is_digit(d[d.len() - 1]));
        lemma_digits_value_nonneg(d.drop_last());
    }
}

/// A prefix of a digit string is worth no more than the whole string.
pub proof fn lemma_digits_value_prefix(d: Seq<char>, k: int)
    requires
        all_digits(d),
        0 <= k <= d.len(),
    ensures
        digits_value(d.take(k)) <= digits_value(d),
    decreases d.len(),
{
    if k == d.len() {
        assert(d.take(k) =~= d);
    } else {
        assert(is_digit(d[d.len() - 1]));
        lemma_digits_value_nonneg(d.drop_last());
        assert(d.drop_last().take(k) =~= d.take(k));
        lemma_digits_value_prefix(d.drop_last(), k);
    }
}

/// The value of the decimal digits `cs[start..end]`, or `None` when one of
/// them is not a digit or the value exceeds `2^31`.
fn digits_in(cs: &Vec<char>, start: usize, end: usize) -> (r: Option<u64>)
    requires
        start <= end <= cs@.len(),
    ensures
        match r {
            Some(v) => {
                &&& all_digits(cs@.subrange(start as int, end as int))
                &&& v == digits_value(cs@.subrange(start as int, end as int))
                &&& v <= 2147483648
            },
            None => !all_digits(cs@.subrange(start as int, end as int)) || digits_value(
                cs@.subrange(start as int, end as int),
            ) > 2147483648,
        },
{
    let ghost d = cs@.subrange(start as int, end as int);
    let mut acc: u64 = 0;
    let mut i = start;
    assert(cs@.subrange(start as int, start as int) =~= Seq::<char>::empty());
    while i < end
        invariant
            start <= i <= end <= cs@.len(),
            d == cs@.subrange(start as int, end as int),
            all_digits(cs@.subrange(start as int, i as int)),
            acc == digits_value(cs@.subrange(start as int, i as int)),
            acc <= 2147483648,
        decreases end - i,
    {
        let c = cs[i];
        let ghost pre = cs@.subrange(start as int, i + 1);
        assert(pre.drop_last() =~= cs@.subrange(start as int, i as int));
        assert(pre.last() == c);
        if !('0' <= c && c <= '9') {
            assert(d[i - start] == c);
            assert(!is_digit(d[i - start]));
            return None;
        }
        let digit = (c as u32 - '0' as u32) as u64;
        assert(digit == c as int - '0' as int);
        let next = acc * 10 + digit;
        assert(next == digits_value(pre));
        assert forall|j: int| 0 <= j < pre.len() implies #[trigger] is_digit(pre[j]) by {
            if j < pre.len() - 1 {
                assert(pre[j] == cs@.subrange(start as int, i as int)[j]);
            }
        }
        if next > 2147483648 {
            proof {
                assert(d.take(i + 1 - start) =~= pre);
                if all_digits(d) {
                    lemma_digits_value_prefix(d, i + 1 - start);
                }
            }
            return None;
        }
        acc = next;
        i = i + 1;
    }
    Some(acc)
}

/// Reads the process id of labwc from the text of `$LABWC_PID`: the text is
/// trimmed of whitespace and read as an `i32`, which must be positive.
pub fn parse_labwc_pid(pid_str: &str) -> (r: Result<i32, PidError>)
    ensures
        r == spec_parse_labwc_pid(pid_str@),
{
    let cs = chars_of(pid_str);
    let n = cs.len();
    let (a, b) = trim_range(&cs, 0, n);
    let ghost t = cs@.subrange(a as int, b as int);
    assert(cs@.subrange(0, n as int) =~= cs@);
    let signed = a < b && (cs[a] == '+' || cs[a] == '-');
    let negative = signed && cs[a] == '-';
    let start = if signed {
        a + 1
    } else {
        a
    };
    let ghost d = cs@.subrange(start as int, b as int);
    assert(d =~= if has_sign(t) {
        t.drop_first()
    } else {
        t
    });
    if start == b {
        return Err(PidError::NotANumber);
    }
    match digits_in(&cs, start, b) {
        None => Err(PidError::NotANumber),
        Some(u) => {
            let v: i64 = if negative {
                -(u as i64)
            } else {
                u as i64
            };
            if v > 2147483647 {
                return Err(PidError::NotANumber);
            }
            let v32 = v as i32;
            if v32 <= 0 {
                Err(PidError::NotPositive(v32))
            } else {
                Ok(v32)
            }
        },
    }
}

} // verus!
