//! The year that an ISO date such as `2024-12-31` begins with.
//!
//! The year is the text before the first `-`, read as a decimal number: an
//! optional `+`, then at least one digit, and a value that fits in `i32`.

use vstd::prelude::*;
use vstd::std_specs::iter::IteratorSpec;

verus! {

broadcast use vstd::string::group_string_axioms;

/// How many characters stand before the first `-` of `s` (all of them if it
/// has none).
pub open spec fn dash_index(s: Seq<char>) -> int
    decreases s.len(),
{
    if s.len() == 0 || s[0] == '-' {
        0
    } else {
        1 + dash_index(s.skip(1))
    }
}

/// Whether `c` is one of `0` to `9`.
pub open spec fn is_digit(c: char) -> bool {
    '0' <= c <= '9'
}

/// Whether every character of `s` is a decimal digit.
pub open spec fn all_digits(s: Seq<char>) -> bool {
    forall|j: int| 0 <= j < s.len() ==> is_digit(#[trigger] s[j])
}

/// The number that the decimal digits `s` spell (0 for the empty text).
pub open spec fn digits_value(s: Seq<char>) -> int
    decreases s.len(),
{
    if s.len() == 0 {
        0
    } else {
        digits_value(s.drop_last()) * 10 + (s.last() as int - '0' as int)
    }
}

/// The digits of the year: the text before the first `-`, without a leading
/// `+`.
pub open spec fn year_digits(end: Seq<char>) -> Seq<char> {
    let n = dash_index(end);
    if n > 0 && end[0] == '+' {
        end.subrange(1, n)
    } else {
        end.subrange(0, n)
    }
}

/// The year that the date `end` begins with, if it has one.
pub open spec fn year_of(end: Seq<char>) -> Option<int> {
    let body = year_digits(end);
    if body.len() > 0 && all_digits(body) && digits_value(body) <= i32::MAX {
        Some(digits_value(body))
    } else {
        None
    }
}

/// `dash_index` is the position of the first `-`, or the length.
pub proof fn lemma_dash_index(s: Seq<char>, n: int)
    requires
        0 <= n <= s.len(),
        forall|j: int| 0 <= j < n ==> s[j] != '-',
        n == s.len() || s[n] == '-',
    ensures
        dash_index(s) == n,
    decreases n,
{
    if n > 0 {
        lemma_dash_index(s.skip(1), n - 1);
    }
}

/// A longer run of digits spells a number that is no smaller.
pub proof fn lemma_digits_value_grows(s: Seq<char>, k: int)
    requires
        0 <= k <= s.len(),
        all_digits(s),
    ensures
        0 <= digits_value(s.take(k)) <= digits_value(s),
    decreases s.len(),
{
    if s.len() == 0 {
        assert(s.take(k) =~= s);
    } else if k == s.len() {
        assert(s.take(k) =~= s);
        lemma_digits_value_grows(s.drop_last(), k - 1);
        assert(is_digit(s.last()));
    } else {
        lemma_digits_value_grows(s.drop_last(), k);
        assert(s.drop_last().take(k) =~= s.take(k));
        assert(is_digit(s.last()));
    }
}

/// Reads the year that the date `end` begins with.
pub fn parse_year(end: &str) -> (r: Option<i32>)
    ensures
        match r {
            Some(y) => year_of(end@) == Some(y as int),
            None => year_of(end@) is None,
        },
{
    let mut it = end.chars();
    let ghost mut i: int = 0;
    let ghost mut sign: int = 0;
    let mut acc: i64 = 0;
    let mut seen: bool = false;
    let mut first: bool = true;
    loop
        invariant
            0 <= sign <= i <= end@.len(),
            it.remaining() == end@.skip(i),
            it.obeys_prophetic_iter_laws(),
            forall|j: int| 0 <= j < i ==> end@[j] != '-',
            first == (i == 0),
            sign <= 1,
            sign == 1 ==> end@[0] == '+',
            sign == 0 && i > 0 ==> end@[0] != '+',
            seen == (i > sign),
            all_digits(end@.subrange(sign, i)),
            acc == digits_value(end@.subrange(sign, i)),
            0 <= acc <= i32::MAX,
        decreases end@.len() - i,
    {
        let next = it.next();
        let c: char = match next {
            Some(c) => c,
            None => {
                proof {
                    lemma_dash_index(end@, i);
                    assert(year_digits(end@) =~= end@.subrange(sign, i));
                }
                return if seen { Some(acc as i32) } else { None };
            },
        };
        if c == '-' {
            proof {
                lemma_dash_index(end@, i);
                assert(year_digits(end@) =~= end@.subrange(sign, i));
            }
            return if seen { Some(acc as i32) } else { None };
        }
        if first && c == '+' {
            first = false;
            proof {
                sign = 1;
                i = 1;
                assert(end@.subrange(1, 1) =~= Seq::<char>::empty());
            }
        } else if '0' <= c && c <= '9' {
            let d: i64 = (c as u32 - '0' as u32) as i64;
            let ghost before = end@.subrange(sign, i);
            let ghost after = end@.subrange(sign, i + 1);
            proof {
                assert(after.drop_last() =~= before);
                assert(after.last() == c);
                assert(digits_value(after) == digits_value(before) * 10 + (c as int - '0' as int));
            }
            acc = acc * 10 + d;
            first = false;
            seen = true;
            if acc > 2147483647 {
                proof {
                    lemma_year_absent_too_large(end@, sign, i + 1);
                }
                return None;
            }
            proof {
                i = i + 1;
            }
        } else {
            proof {
                lemma_year_absent_bad_char(end@, sign, i);
            }
            return None;
        }
    }
}

/// A text whose year part holds a character that is no digit has no year.
proof fn lemma_year_absent_bad_char(end: Seq<char>, sign: int, i: int)
    requires
        0 <= sign <= i < end.len(),
        sign <= 1,
        sign == 1 ==> end[0] == '+',
        sign == 0 && i > 0 ==> end[0] != '+',
        forall|j: int| 0 <= j <= i ==> end[j] != '-',
        !is_digit(end[i]),
        !(i == 0 && end[i] == '+'),
    ensures
        year_of(end) is None,
{
    let n = lemma_dash_index_from(end, i + 1);
    let body = year_digits(end);
    assert(body[i - sign] == end[i]);
}

/// A text whose year part already spells more than `i32::MAX` has no year.
proof fn lemma_year_absent_too_large(end: Seq<char>, sign: int, k: int)
    requires
        0 <= sign < k <= end.len(),
        sign <= 1,
        sign == 1 ==> end[0] == '+',
        sign == 0 ==> end[0] != '+',
        forall|j: int| 0 <= j < k ==> end[j] != '-',
        digits_value(end.subrange(sign, k)) > i32::MAX,
    ensures
        year_of(end) is None,
{
    let n = lemma_dash_index_from(end, k);
    let body = year_digits(end);
    if all_digits(body) {
        lemma_digits_value_grows(body, k - sign);
        assert(body.take(k - sign) =~= end.subrange(sign, k));
    }
}

/// The position of the first `-` is at least `k` when the first `k`
/// characters hold none.
proof fn lemma_dash_index_from(s: Seq<char>, k: int) -> (n: int)
    requires
        0 <= k <= s.len(),
        forall|j: int| 0 <= j < k ==> s[j] != '-',
    ensures
        n == dash_index(s),
        k <= n <= s.len(),
    decreases s.len() - k,
{
    if k == s.len() || s[k] == '-' {
        lemma_dash_index(s, k);
        k
    } else {
        lemma_dash_index_from(s, k + 1)
    }
}

} // verus!
