//! Reading what the user types: texts compared character by character, and
//! decimal numbers as `str::parse` reads them.

use vstd::prelude::*;
use vstd::string::StrSliceExecFns;

verus! {

/// Whether two texts are the same.
pub fn same_text(a: &str, b: &str) -> (r: bool)
    ensures
        r == (a@ == b@),
{
    let n = a.unicode_len();
    if n != b.unicode_len() {
        return false;
    }
    let mut i: usize = 0;
    while i < n
        invariant
            n == a@.len() == b@.len(),
            i <= n,
            forall|k: int| 0 <= k < i ==> a@[k] == b@[k],
        decreases n - i,
    {
        if a.get_char(i) != b.get_char(i) {
            return false;
        }
        i += 1;
    }
    assert(a@ =~= b@);
    true
}

/// The text with every letter in lower case, as `str::to_lowercase` gives it.
pub uninterp spec fn lowercase(s: Seq<char>) -> Seq<char>;

/// Calls `str::to_lowercase`. Which character each letter becomes follows the
/// Unicode tables of the standard library; they are not written out here.
#[verifier::external_body]
fn to_lowercase(s: &str) -> (r: String)
    ensures
        r@ == lowercase(s@),
{
    s.to_lowercase()
}

/// The text in lower case.
pub fn lowercased(s: &str) -> (r: String)
    ensures
        r@ == lowercase(s@),
{
    to_lowercase(s)
}

/// Every character is an ASCII digit.
pub open spec fn all_digits(s: Seq<char>) -> bool {
    forall|i: int| 0 <= i < s.len() ==> '0' <= #[trigger] s[i] <= '9'
}

/// The value of a string of decimal digits.
pub open spec fn digits_value(s: Seq<char>) -> int
    decreases s.len(),
{
    if s.len() == 0 {
        0
    } else {
        digits_value(s.drop_last()) * 10 + (s.last() as int - '0' as int)
    }
}

/// The number an unsigned decimal text stands for: an optional `+` and then
/// at least one digit, nothing else.
pub open spec fn unsigned_value(s: Seq<char>) -> Option<int> {
    let body = if s.len() > 0 && s[0] == '+' { s.skip(1) } else { s };
    if body.len() > 0 && all_digits(body) {
        Some(digits_value(body))
    } else {
        None
    }
}

/// The number a signed decimal text stands for: an optional `+` or `-` and then
/// at least one digit, nothing else.
pub open spec fn signed_value(s: Seq<char>) -> Option<int> {
    if s.len() > 0 && s[0] == '-' {
        let body = s.skip(1);
        if body.len() > 0 && all_digits(body) {
            Some(-digits_value(body))
        } else {
            None
        }
    } else {
        unsigned_value(s)
    }
}

proof fn lemma_digits_value_nonneg(s: Seq<char>)
    requires
        all_digits(s),
    ensures
        digits_value(s) >= 0,
    decreases s.len(),
{
    if s.len() > 0 {
        lemma_digits_value_nonneg(s.drop_last());
    }
}

/// Reads the digits of `s` from position `start` on, giving up once the value
/// passes `limit`: `Some(value)` when they are all digits and the value is at
/// most `limit`, `None` otherwise.
fn read_digits(s: &str, start: usize, limit: u64) -> (r: Option<u64>)
    requires
        start <= s@.len(),
    ensures
        ({
            let body = s@.skip(start as int);
            &&& r == if all_digits(body) && digits_value(body) <= limit {
                Some(digits_value(body) as u64)
            } else {
                None::<u64>
            }
            &&& r matches Some(v) ==> v as int == digits_value(body)
        }),
{
    let n = s.unicode_len();
    let ghost body = s@.skip(start as int);
    let mut i = start;
    while i < n
        invariant
            n == s@.len(),
            start <= i <= n,
            body == s@.skip(start as int),
            forall|k: int| 0 <= k < i - start ==> '0' <= #[trigger] body[k] <= '9',
        decreases n - i,
    {
        let c = s.get_char(i);
        if !('0' <= c && c <= '9') {
            assert(!all_digits(body)) by {
                assert(body[i - start] == c);
            }
            return None;
        }
        i += 1;
    }
    assert(all_digits(body));
    let mut value: u64 = 0;
    let mut i = start;
    while i < n
        invariant
            n == s@.len(),
            start <= i <= n,
            body == s@.skip(start as int),
            all_digits(body),
            value as int == digits_value(body.take(i - start)),
            value <= limit,
        decreases n - i,
    {
        let c = s.get_char(i);
        assert(body[i - start] == c);
        let d = (c as u32 - '0' as u32) as u64;
        assert(body.take(i + 1 - start).drop_last() =~= body.take(i - start));
        let next = value as u128 * 10 + d as u128;
        if next > limit as u128 {
            proof {
                lemma_digits_value_prefix(body, i + 1 - start);
            }
            return None;
        }
        value = next as u64;
        i += 1;
    }
    assert(body.take(n - start) =~= body);
    proof {
        lemma_digits_value_nonneg(body);
    }
    Some(value)
}

/// A longer prefix of digits has at least the value of a shorter one.
proof fn lemma_digits_value_prefix(s: Seq<char>, k: int)
    requires
        all_digits(s),
        0 <= k <= s.len(),
    ensures
        digits_value(s.take(k)) <= digits_value(s),
    decreases s.len() - k,
{
    if k < s.len() {
        lemma_digits_value_prefix(s, k + 1);
        assert(s.take(k + 1).drop_last() =~= s.take(k));
        lemma_digits_value_nonneg(s.take(k));
    } else {
        assert(s.take(k) =~= s);
    }
}

/// Reads a position, as `str::parse::<usize>` does.
pub fn parse_usize(s: &str) -> (r: Option<usize>)
    ensures
        r == match unsigned_value(s@) {
            Some(v) => if v <= usize::MAX { Some(v as usize) } else { None::<usize> },
            None => None::<usize>,
        },
{
    let n = s.unicode_len();
    let start: usize = if n > 0 && s.get_char(0) == '+' { 1 } else { 0 };
    proof {
        if start == 0 {
            assert(s@.skip(0) =~= s@);
        }
    }
    if start == n {
        return None;
    }
    match read_digits(s, start, usize::MAX as u64) {
        Some(v) => Some(v as usize),
        None => None,
    }
}

/// Reads a signed number within `[-neg_limit, pos_limit]`.
fn parse_signed(s: &str, pos_limit: u64, neg_limit: u64) -> (r: Option<(bool, u64)>)
    ensures
        r == match signed_value(s@) {
            Some(v) => if -neg_limit <= v <= pos_limit {
                Some((v < 0, if v < 0 { (-v) as u64 } else { v as u64 }))
            } else {
                None::<(bool, u64)>
            },
            None => None::<(bool, u64)>,
        },
{
    let n = s.unicode_len();
    if n == 0 {
        return None;
    }
    let first = s.get_char(0);
    if first == '-' {
        if n == 1 {
            return None;
        }
        match read_digits(s, 1, neg_limit) {
            Some(v) => {
                if v == 0 {
                    Some((false, 0))
                } else {
                    Some((true, v))
                }
            },
            None => None,
        }
    } else {
        let start: usize = if first == '+' { 1 } else { 0 };
        proof {
            if start == 0 {
                assert(s@.skip(0) =~= s@);
            }
        }
        if start == n {
            return None;
        }
        match read_digits(s, start, pos_limit) {
            Some(v) => Some((false, v)),
            None => None,
        }
    }
}

/// Reads a list id, as `str::parse::<i32>` does.
pub fn parse_i32(s: &str) -> (r: Option<i32>)
    ensures
        r == match signed_value(s@) {
            Some(v) => if i32::MIN <= v <= i32::MAX { Some(v as i32) } else { None::<i32> },
            None => None::<i32>,
        },
{
    match parse_signed(s, 2147483647, 2147483648) {
        Some((negative, magnitude)) => {
            if negative {
                Some((0 - (magnitude as i64)) as i32)
            } else {
                Some(magnitude as i32)
            }
        },
        None => None,
    }
}

/// Reads a part of a period, as `str::parse::<i64>` does.
pub fn parse_i64(s: &str) -> (r: Option<i64>)
    ensures
        r == match signed_value(s@) {
            Some(v) => if i64::MIN <= v <= i64::MAX { Some(v as i64) } else { None::<i64> },
            None => None::<i64>,
        },
{
    match parse_signed(s, 9223372036854775807, 9223372036854775808) {
        Some((negative, magnitude)) => {
            if negative {
                if magnitude == 9223372036854775808 {
                    Some(i64::MIN)
                } else {
                    Some(0 - (magnitude as i64))
                }
            } else {
                Some(magnitude as i64)
            }
        },
        None => None,
    }
}

} // verus!
