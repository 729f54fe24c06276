//! Times: when a recurrence or schedule starts, how long a period lasts, and
//! which timestamps can be shown as dates.

use vstd::prelude::*;
use vstd::string::StrSliceExecFns;
use vstd::string::StringExecFns;

use crate::text::{parse_i64, same_text, signed_value};

verus! {

/// Whether `chrono` reads the text as a date and time without time zone, such
/// as `2024-05-01T09:30:00`.
pub uninterp spec fn naive_datetime_parses(s: Seq<char>) -> bool;

/// Asks `chrono` to read `s` as a `NaiveDateTime` (its `FromStr`), and reports
/// whether it could. Whether a text parses is taken from `chrono` as it is; the
/// grammar of accepted texts is not written out here.
#[verifier::external_body]
fn parses_as_datetime(s: &str) -> (r: bool)
    ensures
        r == naive_datetime_parses(s@),
{
    s.parse::<chrono::NaiveDateTime>().is_ok()
}

/// The earliest UNIX timestamp `chrono` can turn into a date (January 1 of
/// 262144 BCE, 00:00:00 UTC).
pub const MIN_TIMESTAMP: i64 = -8334601228800;

/// The latest UNIX timestamp `chrono` can turn into a date (December 31 of
/// 262142 CE, 23:59:59 UTC).
pub const MAX_TIMESTAMP: i64 = 8210266876799;

/// Asks `chrono` (`DateTime::from_timestamp_secs`) whether the timestamp `secs`
/// is a date it can represent; per its source, exactly the timestamps from
/// `MIN_TIMESTAMP` to `MAX_TIMESTAMP` are.
#[verifier::external_body]
fn timestamp_representable(secs: i64) -> (r: bool)
    ensures
        r == (MIN_TIMESTAMP <= secs <= MAX_TIMESTAMP),
{
    chrono::DateTime::from_timestamp_secs(secs).is_some()
}

/// Whether the timestamp `secs` can be shown as a date.
pub fn is_showable_timestamp(secs: i64) -> (r: bool)
    ensures
        r == (MIN_TIMESTAMP <= secs <= MAX_TIMESTAMP),
{
    timestamp_representable(secs)
}

/// When a recurrence or schedule is to start, as read from the user's answer.
#[derive(Debug, Clone, Copy, PartialEq, Eq)]
pub enum StartTime {
    /// The answer was `remove`: take the recurrence away.
    Remove,
    /// The answer is a local date and time.
    Given,
    /// Anything else: start now.
    Now,
}

/// Reads the start of a recurrence or schedule: the word `remove`, a local
/// date and time, or (for anything else) now.
pub fn start_time(start: &str) -> (r: StartTime)
    ensures
        start@ == "remove"@ ==> r == StartTime::Remove,
        start@ != "remove"@ && naive_datetime_parses(start@) ==> r == StartTime::Given,
        start@ != "remove"@ && !naive_datetime_parses(start@) ==> r == StartTime::Now,
{
    if same_text(start, "remove") {
        StartTime::Remove
    } else if parses_as_datetime(start) {
        StartTime::Given
    } else {
        StartTime::Now
    }
}

/// The length in seconds of a period of days, hours, minutes and seconds.
pub open spec fn period_seconds(days: int, hours: int, minutes: int, seconds: int) -> int {
    seconds + 60 * minutes + 3600 * hours + 86400 * days
}

/// Whether a period may be counted in seconds: a negative part is refused
/// before counting, and the count of a non-negative period must fit in an `i64`.
pub open spec fn period_fits(days: i64, hours: i64, minutes: i64, seconds: i64) -> bool {
    days >= 0 && hours >= 0 && minutes >= 0 && seconds >= 0 ==> period_seconds(
        days as int,
        hours as int,
        minutes as int,
        seconds as int,
    ) <= i64::MAX
}

/// Whether `period_from_parts` can count the period.
pub fn period_can_be_counted(days: i64, hours: i64, minutes: i64, seconds: i64) -> (r: bool)
    ensures
        r == period_fits(days, hours, minutes, seconds),
{
    if days < 0 || hours < 0 || minutes < 0 || seconds < 0 {
        return true;
    }
    let total = seconds as i128 + 60 * (minutes as i128) + 3600 * (hours as i128) + 86400 * (days as i128);
    total <= i64::MAX as i128
}

/// The period between recurrences in seconds, or `None` when a part is negative.
pub fn period_from_parts(days: i64, hours: i64, minutes: i64, seconds: i64) -> (r: Option<i64>)
    requires
        period_fits(days, hours, minutes, seconds),
    ensures
        r == if days >= 0 && hours >= 0 && minutes >= 0 && seconds >= 0 {
            Some(period_seconds(days as int, hours as int, minutes as int, seconds as int) as i64)
        } else {
            None::<i64>
        },
{
    if days >= 0 && hours >= 0 && minutes >= 0 && seconds >= 0 {
        let mut period_calculation = seconds;
        period_calculation += 60 * minutes;
        period_calculation += 3600 * hours;
        period_calculation += 86400 * days;
        Some(period_calculation)
    } else {
        None
    }
}

/// The text padded on the left with `0` to at least `width` characters.
pub open spec fn zero_padded(s: Seq<char>, width: int) -> Seq<char> {
    if s.len() >= width {
        s
    } else {
        Seq::new((width - s.len()) as nat, |i: int| '0') + s
    }
}

/// Appends `s` padded on the left with `0` to at least `width` characters.
fn push_zero_padded(out: &mut String, s: &str, width: usize)
    ensures
        final(out)@ == old(out)@ + zero_padded(s@, width as int),
{
    let n = s.unicode_len();
    let ghost start = out@;
    let mut k = n;
    proof {
        reveal_strlit("0");
    }
    while k < width
        invariant
            n == s@.len(),
            n <= k,
            k <= width || k == n,
            out@ == start + Seq::new((k - n) as nat, |i: int| '0'),
        decreases width - k,
    {
        proof {
            reveal_strlit("0");
        }
        assert("0"@ =~= seq!['0']);
        out.append("0");
        k += 1;
        assert(out@ =~= start + Seq::new((k - n) as nat, |i: int| '0'));
    }
    out.append(s);
    assert(out@ =~= start + zero_padded(s@, width as int));
}

/// The date and time typed as year, month, day, hour and minute, written the
/// way `chrono` reads it: `YYYY-MM-DDTHH:MM:00`, each part padded with zeros.
pub open spec fn datetime_text_of(year: Seq<char>, month: Seq<char>, day: Seq<char>, hour: Seq<char>, minute: Seq<char>) -> Seq<char> {
    zero_padded(year, 4) + seq!['-'] + zero_padded(month, 2) + seq!['-'] + zero_padded(day, 2) + seq!['T']
        + zero_padded(hour, 2) + seq![':'] + zero_padded(minute, 2) + seq![':', '0', '0']
}

/// Writes the date and time typed by the user as `YYYY-MM-DDTHH:MM:00`.
pub fn datetime_text(year: &str, month: &str, day: &str, hour: &str, minute: &str) -> (r: String)
    ensures
        r@ == datetime_text_of(year@, month@, day@, hour@, minute@),
{
    proof {
        reveal_strlit("-");
        reveal_strlit("T");
        reveal_strlit(":");
        reveal_strlit(":00");
    }
    let mut r = String::new();
    push_zero_padded(&mut r, year, 4);
    r.append("-");
    push_zero_padded(&mut r, month, 2);
    r.append("-");
    push_zero_padded(&mut r, day, 2);
    r.append("T");
    push_zero_padded(&mut r, hour, 2);
    r.append(":");
    push_zero_padded(&mut r, minute, 2);
    r.append(":00");
    assert(r@ =~= datetime_text_of(year@, month@, day@, hour@, minute@));
    r
}

/// Reads one part of a period (days, hours, minutes or seconds): an empty
/// answer counts as zero, anything else is read as a signed number.
pub fn parse_period_part(answer: &str) -> (r: Option<i64>)
    ensures
        r == if answer@.len() == 0 {
            Some(0i64)
        } else {
            match signed_value(answer@) {
                Some(v) => if i64::MIN <= v <= i64::MAX { Some(v as i64) } else { None::<i64> },
                None => None::<i64>,
            }
        },
{
    if answer.unicode_len() == 0 {
        Some(0)
    } else {
        parse_i64(answer)
    }
}

} // verus!
