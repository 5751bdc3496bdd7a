//! Calendar arithmetic for certificate lifetimes: civil dates, days since the
//! epoch, and the days until an RFC 3339 timestamp.

use crate::model::double::padded;
use crate::text::{all_digits, chars_of, dec, dec_value, digit, is_digit, push_dec};
use vstd::prelude::*;

verus! {

/// `std::time::SystemTime::elapsed` of the epoch, in whole seconds; nothing
/// when the clock stands before it. The value depends on the moment, so
/// nothing is said of it.
#[verifier::external_body]
fn now_secs() -> (r: Option<u64>) {
    match std::time::UNIX_EPOCH.elapsed() {
        Ok(elapsed) => Some(elapsed.as_secs()),
        Err(_) => None,
    }
}

/// Whether a day, where it is known, is one that a clock can show.
pub open spec fn valid_day(today: Option<i64>) -> bool {
    today matches Some(now) ==> 0 <= now <= 0x1_0000_0000_0000
}

/// The number of whole days since the epoch, by the system clock; nothing when
/// the clock stands before the epoch. What the clock shows is left open.
pub fn today() -> (r: Option<i64>)
    ensures
        valid_day(r),
        exists|secs: Option<u64>| r == #[trigger] day_of(secs),
{
    let secs = now_secs();
    day_at(secs)
}

/// The number of whole days in a number of seconds.
pub open spec fn day_of(secs: Option<u64>) -> Option<i64> {
    match secs {
        Some(n) => Some((n / 86_400) as i64),
        None => None,
    }
}

/// The number of whole days since the epoch, of a clock that shows `secs`
/// seconds since it; nothing for a clock that stands before it.
pub fn day_at(secs: Option<u64>) -> (r: Option<i64>)
    ensures
        r == day_of(secs),
        secs matches Some(n) ==> (r matches Some(d) && d * 86_400 <= n < (d + 1) * 86_400),
        valid_day(r),
{
    match secs {
        Some(n) => Some((n / 86_400) as i64),
        None => None,
    }
}

/// Quotient rounded toward zero.
pub open spec fn toward_zero(a: int, b: int) -> int {
    if a >= 0 {
        a / b
    } else {
        -((-a) / b)
    }
}

/// Days since 1970-01-01 of the date `y-m-d`: years are counted from March, in
/// eras of 400 years.
pub open spec fn civil_days(y: int, m: int, d: int) -> int {
    let year = if m <= 2 {
        y - 1
    } else {
        y
    };
    let era = year / 400;
    let yoe = year % 400;
    let mp = if m > 2 {
        m - 3
    } else {
        m + 9
    };
    let doy = toward_zero(153 * mp + 2, 5) + d - 1;
    let doe = yoe * 365 + yoe / 4 - yoe / 100 + doy;
    era * 146_097 + doe - 719_468
}

/// Whether a year has a leap day.
pub open spec fn is_leap(y: int) -> bool {
    y % 4 == 0 && (y % 100 != 0 || y % 400 == 0)
}

/// The days of a year before a month.
pub open spec fn days_before_month(y: int, m: int) -> int {
    let leap = if is_leap(y) {
        1int
    } else {
        0
    };
    if m == 1 {
        0
    } else if m == 2 {
        31
    } else if m == 3 {
        59 + leap
    } else if m == 4 {
        90 + leap
    } else if m == 5 {
        120 + leap
    } else if m == 6 {
        151 + leap
    } else if m == 7 {
        181 + leap
    } else if m == 8 {
        212 + leap
    } else if m == 9 {
        243 + leap
    } else if m == 10 {
        273 + leap
    } else if m == 11 {
        304 + leap
    } else {
        334 + leap
    }
}

/// The days before a year, from the beginning of year 1.
pub open spec fn days_before_year(y: int) -> int {
    365 * (y - 1) + (y - 1) / 4 - (y - 1) / 100 + (y - 1) / 400
}

/// For every month the day count is the calendar's: the days of the years and
/// months before, from the epoch.
pub proof fn lemma_civil_days_is_the_calendar(y: int, m: int, d: int)
    requires
        1 <= m <= 12,
    ensures
        civil_days(y, m, d) == days_before_year(y) + days_before_month(y, m) + d - 1 - days_before_year(1970),
{
    let year = if m <= 2 {
        y - 1
    } else {
        y
    };
    let era = year / 400;
    let yoe = year % 400;
    assert(year == era * 400 + yoe);
    assert(year / 4 == era * 100 + yoe / 4);
    assert(year / 100 == era * 4 + yoe / 100);
    assert(days_before_year(1970) == 719_162);
    if m > 2 {
        let p = y - 1;
        assert(y / 4 - p / 4 == if y % 4 == 0 {
            1int
        } else {
            0
        });
        assert(y / 100 - p / 100 == if y % 100 == 0 {
            1int
        } else {
            0
        });
        assert(y / 400 - p / 400 == if y % 400 == 0 {
            1int
        } else {
            0
        });
    }
}

/// Days since 1970-01-01 for a proleptic-Gregorian civil date, whose day number
/// has to fit its type.
pub fn days_from_civil(y: i64, m: i64, d: i64) -> (r: i64)
    requires
        i64::MIN <= civil_days(y as int, m as int, d as int) <= i64::MAX,
    ensures
        r == civil_days(y as int, m as int, d as int),
{
    let year: i128 = if m <= 2 {
        y as i128 - 1
    } else {
        y as i128
    };
    let era: i128 = if year >= 0 {
        year / 400
    } else {
        -((-year + 399) / 400)
    };
    let yoe: i128 = year - era * 400;
    assert(era == year as int / 400);
    assert(yoe == year as int % 400);
    let mp: i128 = if m > 2 {
        m as i128 - 3
    } else {
        m as i128 + 9
    };
    let scaled: i128 = 153 * mp + 2;
    let before: i128 = if scaled >= 0 {
        scaled / 5
    } else {
        -((-scaled) / 5)
    };
    let doy: i128 = before + d as i128 - 1;
    let doe: i128 = yoe * 365 + yoe / 4 - yoe / 100 + doy;
    (era * 146_097 + doe - 719_468) as i64
}

/// The civil date `days` after 1970-01-01, as (year, month, day).
pub open spec fn civil_date(days: int) -> (int, int, int) {
    let z = days + 719_468;
    let era = z / 146_097;
    let doe = z % 146_097;
    let yoe = (doe - doe / 1460 + doe / 36_524 - doe / 146_096) / 365;
    let doy = doe - (365 * yoe + yoe / 4 - yoe / 100);
    let mp = (5 * doy + 2) / 153;
    let d = doy - (153 * mp + 2) / 5 + 1;
    let m = if mp < 10 {
        mp + 3
    } else {
        mp - 9
    };
    let y = yoe + era * 400;
    (
        if m <= 2 {
            y + 1
        } else {
            y
        },
        m,
        d,
    )
}

/// The year of an era that a day of it belongs to.
proof fn lemma_year_of_era(doe: int)
    requires
        0 <= doe < 146_097,
    ensures
        ({
            let yoe = (doe - doe / 1460 + doe / 36_524 - doe / 146_096) / 365;
            let doy = doe - (365 * yoe + yoe / 4 - yoe / 100);
            0 <= yoe < 400 && 0 <= doy <= 365
        }),
{
    let yoe = (doe - doe / 1460 + doe / 36_524 - doe / 146_096) / 365;
    let c = doe / 36_524;
    if doe == 146_096 {
        assert(yoe == 399);
    } else {
        assert(doe / 146_096 == 0);
        assert(0 <= c <= 3 || doe >= 146_096);
    }
}

/// The month and day of a year that begins in March.
proof fn lemma_month_of_year(doy: int)
    requires
        0 <= doy <= 365,
    ensures
        ({
            let mp = (5 * doy + 2) / 153;
            let d = doy - (153 * mp + 2) / 5 + 1;
            0 <= mp <= 11 && 1 <= d <= 31
        }),
{
}

/// Going from a day number to the date and back gives the day number, and the
/// date is one: a month of 1 to 12, a day of 1 to 31.
pub proof fn lemma_civil_round_trip(days: int)
    ensures
        ({
            let (y, m, d) = civil_date(days);
            civil_days(y, m, d) == days && 1 <= m <= 12 && 1 <= d <= 31
        }),
{
    let z = days + 719_468;
    let era = z / 146_097;
    let doe = z % 146_097;
    let yoe = (doe - doe / 1460 + doe / 36_524 - doe / 146_096) / 365;
    let doy = doe - (365 * yoe + yoe / 4 - yoe / 100);
    lemma_year_of_era(doe);
    lemma_month_of_year(doy);
    let (y, m, d) = civil_date(days);
    let year = yoe + era * 400;
    assert(year / 400 == era && year % 400 == yoe);
}

/// The civil date `days` after 1970-01-01.
pub fn civil_from_days(days: i64) -> (r: (i64, u32, u32))
    ensures
        (r.0 as int, r.1 as int, r.2 as int) == civil_date(days as int),
        1 <= r.1 <= 12,
        1 <= r.2 <= 31,
{
    civil_of(days as i128)
}

/// The civil date of a day number.
fn civil_of(days: i128) -> (r: (i64, u32, u32))
    requires
        -0x1_0000_0000_0000_0000 <= days <= 0x1_0000_0000_0000_0000,
    ensures
        -0x4000_0000_0000_0000 < r.0 < 0x4000_0000_0000_0000,
        (r.0 as int, r.1 as int, r.2 as int) == civil_date(days as int),
        1 <= r.1 <= 12,
        1 <= r.2 <= 31,
{
    let z: i128 = days + 719_468;
    let era: i128 = if z >= 0 {
        z / 146_097
    } else {
        -((-z + 146_096) / 146_097)
    };
    let doe: i128 = z - era * 146_097;
    assert(era == z as int / 146_097);
    assert(doe == z as int % 146_097);
    let yoe: i128 = (doe - doe / 1460 + doe / 36_524 - doe / 146_096) / 365;
    proof {
        lemma_year_of_era(doe as int);
    }
    let doy: i128 = doe - (365 * yoe + yoe / 4 - yoe / 100);
    proof {
        lemma_month_of_year(doy as int);
    }
    let mp: i128 = (5 * doy + 2) / 153;
    let d: i128 = doy - (153 * mp + 2) / 5 + 1;
    let m: i128 = if mp < 10 {
        mp + 3
    } else {
        mp - 9
    };
    let y: i128 = yoe + era * 400;
    (
        if m <= 2 {
            (y + 1) as i64
        } else {
            y as i64
        },
        m as u32,
        d as u32,
    )
}

// --- timestamps ----------------------------------------------------------------------------

/// Whether a character stands where a shape has one: any digit for a zero,
/// else the very character.
pub open spec fn fits_shape(shape: char, c: char) -> bool {
    if shape == '0' {
        is_digit(c)
    } else {
        c == shape
    }
}

/// Whether a text is of the shape `YYYY-MM-DDTHH:MM:SSZ`.
pub open spec fn is_timestamp(s: Seq<char>) -> bool {
    let shape = "0000-00-00T00:00:00Z"@;
    s.len() == shape.len() && forall|i: int| 0 <= i < shape.len() ==> fits_shape(shape[i], #[trigger] s[i])
}

/// The day number of the date of an RFC 3339 UTC timestamp; nothing for a text
/// of any other shape.
pub open spec fn date_days(s: Seq<char>) -> Option<int> {
    if is_timestamp(s) {
        Some(
            civil_days(
                dec_value(s.subrange(0, 4)) as int,
                dec_value(s.subrange(5, 7)) as int,
                dec_value(s.subrange(8, 10)) as int,
            ),
        )
    } else {
        None
    }
}

/// Whether a text is of the shape `YYYY-MM-DDTHH:MM:SSZ`.
fn has_timestamp_shape(s: &[char]) -> (r: bool)
    ensures
        r == is_timestamp(s@),
{
    let shape = chars_of("0000-00-00T00:00:00Z");
    if s.len() != shape.len() {
        return false;
    }
    for i in 0..s.len()
        invariant
            shape@ == "0000-00-00T00:00:00Z"@,
            s@.len() == shape@.len(),
            forall|j: int| 0 <= j < i ==> fits_shape(shape@[j], #[trigger] s@[j]),
    {
        let c = s[i];
        let fits = if shape[i] == '0' {
            '0' <= c && c <= '9'
        } else {
            c == shape[i]
        };
        if !fits {
            assert(!fits_shape(shape@[i as int], s@[i as int]));
            return false;
        }
    }
    true
}

/// The value of at most four digits.
fn digits_value(s: &[char], from: usize, to: usize) -> (value: i64)
    requires
        from <= to <= s@.len(),
        to - from <= 4,
        forall|i: int| from <= i < to ==> is_digit(#[trigger] s@[i]),
    ensures
        value == dec_value(s@.subrange(from as int, to as int)),
        0 <= value < 10_000,
{
    let mut value: i64 = 0;
    assert(s@.subrange(from as int, from as int) =~= Seq::empty());
    for i in from..to
        invariant
            from <= to <= s@.len(),
            to - from <= 4,
            forall|j: int| from <= j < to ==> is_digit(#[trigger] s@[j]),
            value == dec_value(s@.subrange(from as int, i as int)),
            0 <= value,
            i == from ==> value == 0,
            i == from + 1 ==> value < 10,
            i == from + 2 ==> value < 100,
            i == from + 3 ==> value < 1000,
            i == from + 4 ==> value < 10_000,
    {
        let c = s[i];
        assert(is_digit(s@[i as int]));
        assert(s@.subrange(from as int, i as int + 1).drop_last() =~= s@.subrange(from as int, i as int));
        value = value * 10 + (c as u32 - '0' as u32) as i64;
    }
    value
}

/// The day number of the date of a timestamp.
fn parse_date(s: &str) -> (r: Option<i64>)
    ensures
        r is Some <==> date_days(s@) is Some,
        r matches Some(v) ==> date_days(s@) == Some(v as int) && -0x4000_0000 < v < 0x4000_0000,
{
    let chars = chars_of(s);
    let c = chars.as_slice();
    if !has_timestamp_shape(c) {
        return None;
    }
    proof {
        reveal_strlit("0000-00-00T00:00:00Z");
        assert forall|i: int| 0 <= i < 10 && i != 4 && i != 7 implies is_digit(#[trigger] c@[i]) by {
            assert(fits_shape("0000-00-00T00:00:00Z"@[i], c@[i]));
        }
    }
    let y = digits_value(c, 0, 4);
    let m = digits_value(c, 5, 7);
    let d = digits_value(c, 8, 10);
    Some(days_from_civil(y, m, d))
}

/// The days from a day until the date of a timestamp.
pub open spec fn days_until(s: Seq<char>, today: Option<i64>) -> Option<int> {
    match (date_days(s), today) {
        (Some(date), Some(now)) => Some(date - now),
        _ => None,
    }
}

/// Days from `today` until the date encoded in an RFC 3339 UTC timestamp
/// (`YYYY-MM-DDTHH:MM:SSZ`); negative when that date is already past. `None`
/// when the string is not of that shape, or today is unknown.
pub fn days_until_at(rfc3339: &str, today: Option<i64>) -> (r: Option<i64>)
    requires
        valid_day(today),
    ensures
        r is Some <==> days_until(rfc3339@, today) is Some,
        r matches Some(v) ==> days_until(rfc3339@, today) == Some(v as int) && v > i64::MIN,
{
    match (parse_date(rfc3339), today) {
        (Some(date), Some(now)) => Some(date - now),
        _ => None,
    }
}

/// Days from today until the date encoded in an RFC 3339 UTC timestamp
/// (`YYYY-MM-DDTHH:MM:SSZ`); negative when that date is already past. `None`
/// when the string is not of that shape.
pub fn days_until_from_rfc3339(rfc3339: &str) -> (r: Option<i64>)
    ensures
        exists|now: Option<i64>| #[trigger]
            valid_day(now) && (r is Some <==> days_until(rfc3339@, now) is Some) && (r matches Some(v) ==> days_until(
                rfc3339@,
                now,
            ) == Some(v as int)),
        date_days(rfc3339@) is None ==> r is None,
{
    let now = today();
    days_until_at(rfc3339, now)
}

/// The timestamp of midnight on a day.
pub open spec fn midnight_text(days: int) -> Seq<char> {
    let (y, m, d) = civil_date(days);
    padded_year(y) + "-"@ + padded(m as nat, 2) + "-"@ + padded(d as nat, 2) + "T00:00:00Z"@
}

/// A year with at least four characters, zeros behind the sign.
pub open spec fn padded_year(y: int) -> Seq<char> {
    if y < 0 {
        "-"@ + if -y < 1000 {
            padded((-y) as nat, 3)
        } else {
            dec((-y) as nat)
        }
    } else if y < 10_000 {
        padded(y as nat, 4)
    } else {
        dec(y as nat)
    }
}

/// Append the last `k` decimal digits of `n`.
fn push_digits(out: &mut String, n: u64, k: usize)
    ensures
        final(out)@ == old(out)@ + padded(n as nat, k as nat),
    decreases k,
{
    if k > 0 {
        push_digits(out, n / 10, k - 1);
        out.push(digit(n % 10));
    }
    assert(out@ =~= old(out)@ + padded(n as nat, k as nat));
}

/// The RFC 3339 timestamp of midnight on a day.
pub fn rfc3339_at(days: i64) -> (out: String)
    ensures
        out@ == midnight_text(days as int),
{
    timestamp_of(days as i128)
}

/// The timestamp of midnight on a day.
fn timestamp_of(days: i128) -> (out: String)
    requires
        -0x1_0000_0000_0000_0000 <= days <= 0x1_0000_0000_0000_0000,
    ensures
        out@ == midnight_text(days as int),
{
    let (y, m, d) = civil_of(days);
    let mut out = String::new();
    if y < 0 {
        out.append("-");
        if -y < 1000 {
            push_digits(&mut out, (-y) as u64, 3);
        } else {
            push_dec(&mut out, (-y) as u64);
        }
    } else if y < 10_000 {
        push_digits(&mut out, y as u64, 4);
    } else {
        push_dec(&mut out, y as u64);
    }
    assert(out@ =~= padded_year(y as int));
    out.append("-");
    push_digits(&mut out, m as u64, 2);
    out.append("-");
    push_digits(&mut out, d as u64, 2);
    out.append("T00:00:00Z");
    out
}

/// The RFC 3339 UTC timestamp of midnight `days` days from today (negative =
/// past); nothing when today is unknown. What the clock shows is left open.
pub fn rfc3339_days_from_now(days: i64) -> (r: Option<String>)
    ensures
        exists|now: Option<i64>| #[trigger]
            valid_day(now) && (r is Some <==> now is Some) && (r matches Some(text) ==> text@ == midnight_text(
                now->0 + days,
            )),
{
    let now = today();
    rfc3339_days_from(now, days)
}

/// The RFC 3339 UTC timestamp of midnight `days` days from the day `today`
/// (negative = past); nothing when today is unknown.
pub fn rfc3339_days_from(today: Option<i64>, days: i64) -> (r: Option<String>)
    requires
        valid_day(today),
    ensures
        r is Some <==> today is Some,
        r matches Some(text) ==> text@ == midnight_text(today->0 + days),
{
    match today {
        Some(now) => Some(timestamp_of(now as i128 + days as i128)),
        None => None,
    }
}

/// The digits of a padded number, and its value where it fits.
proof fn lemma_padded(n: nat, k: nat)
    requires
        k <= 4,
    ensures
        padded(n, k).len() == k,
        all_digits(padded(n, k)),
        k == 2 && n < 100 ==> dec_value(padded(n, k)) == n,
        k == 4 && n < 10_000 ==> dec_value(padded(n, k)) == n,
        k == 1 && n < 10 ==> dec_value(padded(n, k)) == n,
        k == 3 && n < 1000 ==> dec_value(padded(n, k)) == n,
    decreases k,
{
    if k > 0 {
        lemma_padded(n / 10, (k - 1) as nat);
        let front = padded(n / 10, (k - 1) as nat);
        let s = padded(n, k);
        assert(s.drop_last() =~= front);
        assert(dec_value(Seq::<char>::empty()) == 0);
        if k == 1 {
            assert(front =~= Seq::empty());
        }
        assert forall|i: int| 0 <= i < s.len() implies is_digit(#[trigger] s[i]) by {
            if i < front.len() {
                assert(is_digit(front[i]));
            }
        }
    }
}

/// A written timestamp is read back: the days from any day until a written
/// date of the years 0 to 9999 are the days between the two.
pub proof fn lemma_timestamp_reads_back(days: int, today: i64)
    requires
        0 <= civil_date(days).0 < 10_000,
    ensures
        days_until(midnight_text(days), Some(today)) == Some(days - today),
{
    let (y, m, d) = civil_date(days);
    lemma_civil_round_trip(days);
    lemma_padded(y as nat, 4);
    lemma_padded(m as nat, 2);
    lemma_padded(d as nat, 2);
    reveal_strlit("-");
    reveal_strlit("T00:00:00Z");
    let s = midnight_text(days);
    assert(s.subrange(0, 4) =~= padded(y as nat, 4));
    assert(s.subrange(5, 7) =~= padded(m as nat, 2));
    assert(s.subrange(8, 10) =~= padded(d as nat, 2));
    reveal_strlit("0000-00-00T00:00:00Z");
    assert forall|i: int| 0 <= i < 20 implies fits_shape("0000-00-00T00:00:00Z"@[i], #[trigger] s[i]) by {
        if i < 4 {
            assert(s[i] == padded(y as nat, 4)[i]);
        } else if 5 <= i < 7 {
            assert(s[i] == padded(m as nat, 2)[i - 5]);
        } else if 8 <= i < 10 {
            assert(s[i] == padded(d as nat, 2)[i - 8]);
        } else if 10 <= i {
            assert(s[i] == "T00:00:00Z"@[i - 10]);
        }
    }
}

} // verus!
