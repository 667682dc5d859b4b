//! The clock: what time it is, and the calendar date of a day.
use vstd::prelude::*;
use vstd::utf8::{encode_utf8, is_ascii_chars, is_ascii_chars_encode_utf8};
use crate::text::{dec, digit, push_padded, push_text, zero_padded};

verus! {

// ---------------------------------------------------------------------------
// The system clock
// ---------------------------------------------------------------------------

/// A moment of the system clock.
#[verifier::external_type_specification]
#[verifier::external_body]
pub struct ExSystemTime(std::time::SystemTime);

/// The error of a span that would be negative.
#[verifier::external_type_specification]
#[verifier::external_body]
pub struct ExSystemTimeError(std::time::SystemTimeError);

/// `std::time::SystemTime::now` gives the present moment. Nothing is claimed of it.
pub assume_specification[ std::time::SystemTime::now ]() -> (r: std::time::SystemTime)
;

/// The span from the Unix epoch to a moment, or the error of a moment before the epoch: what
/// `std::time::SystemTime::duration_since` gives of the two.
pub uninterp spec fn span_since_epoch(t: std::time::SystemTime) -> Result<
    std::time::Duration,
    std::time::SystemTimeError,
>;

/// The whole seconds of a span: what `std::time::Duration::as_secs` gives of it.
pub uninterp spec fn whole_seconds(d: std::time::Duration) -> u64;

/// The nanoseconds of a span beyond its whole seconds: what
/// `std::time::Duration::subsec_nanos` gives of it.
pub uninterp spec fn nanos_beyond(d: std::time::Duration) -> u32;

/// `std::time::SystemTime::duration_since`, from the Unix epoch: the span up to the
/// moment, or an error where the moment lies before the epoch. The result depends on the
/// moment alone.
#[verifier::external_body]
fn since_epoch(t: std::time::SystemTime) -> (r: Result<
    std::time::Duration,
    std::time::SystemTimeError,
>)
    ensures
        r == span_since_epoch(t),
{
    t.duration_since(std::time::UNIX_EPOCH)
}

/// `std::time::Duration::as_secs` gives the whole seconds of a span. They depend on the
/// span alone.
pub assume_specification[ std::time::Duration::as_secs ](d: &std::time::Duration) -> (r: u64)
    ensures
        r == whole_seconds(*d),
;

/// `std::time::Duration::subsec_nanos` gives the part of a span below one second, in
/// nanoseconds, which is less than one billion. It depends on the span alone.
pub assume_specification[ std::time::Duration::subsec_nanos ](d: &std::time::Duration) -> (r: u32)
    ensures
        r == nanos_beyond(*d),
        r < 1_000_000_000,
;

/// A moment as the seconds since the Unix epoch and the nanoseconds beyond them; nothing
/// for a moment before the epoch.
pub open spec fn unix_time_at(t: std::time::SystemTime) -> Option<(u64, u32)> {
    match span_since_epoch(t) {
        Ok(d) => Some((whole_seconds(d), nanos_beyond(d))),
        Err(_) => None,
    }
}

/// The seconds from the Unix epoch to a moment and the nanoseconds beyond them; nothing for
/// a moment before the epoch.
pub fn unix_time_of(t: std::time::SystemTime) -> (r: Option<(u64, u32)>)
    ensures
        r == unix_time_at(t),
        r matches Some(time) ==> time.1 < 1_000_000_000,
{
    match since_epoch(t) {
        Ok(d) => Some((d.as_secs(), d.subsec_nanos())),
        Err(_) => None,
    }
}

/// The seconds since the Unix epoch and the nanoseconds beyond them; nothing where the
/// clock stands before the epoch. Which moment the clock shows is left open.
pub fn unix_time() -> (r: Option<(u64, u32)>)
    ensures
        exists|t: std::time::SystemTime| r == #[trigger] unix_time_at(t),
        r matches Some(time) ==> time.1 < 1_000_000_000,
{
    unix_time_of(std::time::SystemTime::now())
}

// ---------------------------------------------------------------------------
// The calendar
// ---------------------------------------------------------------------------

/// A leap year of the Gregorian calendar.
pub open spec fn is_leap(y: int) -> bool {
    y % 4 == 0 && (y % 100 != 0 || y % 400 == 0)
}

/// The days of a month.
pub open spec fn month_len(y: int, m: int) -> int {
    if m == 2 {
        if is_leap(y) {
            29
        } else {
            28
        }
    } else if m == 4 || m == 6 || m == 9 || m == 11 {
        30
    } else {
        31
    }
}

/// The days of a year before a month of it.
pub open spec fn days_before_month(y: int, m: int) -> int
    decreases m,
{
    if m <= 1 {
        0
    } else {
        days_before_month(y, m - 1) + month_len(y, m - 1)
    }
}

/// A date of the Gregorian calendar.
pub open spec fn is_date(y: int, m: int, d: int) -> bool {
    1 <= m <= 12 && 1 <= d <= month_len(y, m)
}

/// The days from the first of January of year one to the first of January of a year.
pub open spec fn year_start(y: int) -> int {
    365 * (y - 1) + (y - 1) / 4 - (y - 1) / 100 + (y - 1) / 400
}

/// The days from the first of January 1970 to a date.
pub open spec fn day_number(y: int, m: int, d: int) -> int {
    year_start(y) + days_before_month(y, m) + (d - 1) - 719162
}

/// The days of a year before each month, as numbers.
proof fn lemma_days_before_month(y: int)
    ensures
        days_before_month(y, 1) == 0,
        days_before_month(y, 2) == 31,
        days_before_month(y, 3) == 31 + month_len(y, 2),
        days_before_month(y, 4) == 62 + month_len(y, 2),
        days_before_month(y, 5) == 92 + month_len(y, 2),
        days_before_month(y, 6) == 123 + month_len(y, 2),
        days_before_month(y, 7) == 153 + month_len(y, 2),
        days_before_month(y, 8) == 184 + month_len(y, 2),
        days_before_month(y, 9) == 215 + month_len(y, 2),
        days_before_month(y, 10) == 245 + month_len(y, 2),
        days_before_month(y, 11) == 276 + month_len(y, 2),
        days_before_month(y, 12) == 306 + month_len(y, 2),
        days_before_month(y, 13) == 337 + month_len(y, 2),
{
    reveal_with_fuel(days_before_month, 14);
}

/// A quotient grows by one at each multiple of the divisor.
proof fn lemma_next_quotient(y: int, k: int)
    by (nonlinear_arith)
    requires
        k > 1,
    ensures
        y / k == (y - 1) / k + (if y % k == 0 {
            1int
        } else {
            0
        }),
{
}

/// How long a year is.
pub proof fn lemma_year_len(y: int)
    ensures
        year_start(y + 1) == year_start(y) + 337 + month_len(y, 2),
{
    lemma_next_quotient(y, 4);
    lemma_next_quotient(y, 100);
    lemma_next_quotient(y, 400);
    assert(y % 100 == 0 ==> y % 4 == 0);
    assert(y % 400 == 0 ==> y % 100 == 0);
}

/// A later year begins later.
proof fn lemma_year_order(y1: int, y2: int)
    requires
        y1 <= y2,
    ensures
        year_start(y1) <= year_start(y2),
    decreases y2 - y1,
{
    if y1 < y2 {
        lemma_year_order(y1, y2 - 1);
        lemma_year_len(y2 - 1);
    }
}

/// A later date has the greater day number.
pub proof fn law_day_numbers_follow_the_calendar(
    y1: int,
    m1: int,
    d1: int,
    y2: int,
    m2: int,
    d2: int,
)
    requires
        is_date(y1, m1, d1),
        is_date(y2, m2, d2),
        y1 < y2 || (y1 == y2 && (m1 < m2 || (m1 == m2 && d1 < d2))),
    ensures
        day_number(y1, m1, d1) < day_number(y2, m2, d2),
{
    if y1 < y2 {
        lemma_month_start(y1, m1);
        lemma_month_start(y2, m2);
        lemma_year_len(y1);
        lemma_year_order(y1 + 1, y2);
    } else if m1 < m2 {
        lemma_month_order(y1, m1, m2);
    }
}

/// The days before a month lie within the year.
proof fn lemma_month_start(y: int, m: int)
    requires
        1 <= m <= 12,
    ensures
        0 <= days_before_month(y, m),
        days_before_month(y, m) + month_len(y, m) <= 337 + month_len(y, 2),
{
    lemma_days_before_month(y);
    if m == 1 {
    } else if m == 2 {
    } else if m == 3 {
    } else if m == 4 {
    } else if m == 5 {
    } else if m == 6 {
    } else if m == 7 {
    } else if m == 8 {
    } else if m == 9 {
    } else if m == 10 {
    } else if m == 11 {
    } else {
        assert(m == 12);
    }
}

/// A month ends before a later one begins.
proof fn lemma_month_order(y: int, m1: int, m2: int)
    requires
        1 <= m1 < m2,
    ensures
        days_before_month(y, m1) + month_len(y, m1) <= days_before_month(y, m2),
    decreases m2,
{
    if m1 < m2 - 1 {
        lemma_month_order(y, m1, m2 - 1);
    }
}

/// The quotient rounded towards minus infinity.
fn floor_div(n: i128, d: i128) -> (r: i128)
    requires
        0 < d <= 0xffff_ffff,
        -0x1_0000_0000_0000_0000_0000_0000 <= n <= 0x1_0000_0000_0000_0000_0000_0000,
    ensures
        r == n as int / d as int,
{
    if n >= 0 {
        n / d
    } else {
        let up: i128 = -n + (d - 1);
        let q: i128 = up / d;
        proof {
            let (a, b) = (n as int, d as int);
            assert(-((-a + (b - 1)) / b) == a / b) by (nonlinear_arith)
                requires
                    b > 0,
            ;
        }
        -q
    }
}

/// The days from the first of March of year zero to the first of March of a year.
pub open spec fn march_start(y: int) -> int {
    365 * y + y / 4 - y / 100 + y / 400
}

/// The year, begun in March, in which a day lies, and the day's place in it. Such a year
/// has its leap day at the end.
fn march_year(n: i128) -> (r: (i128, i128))
    requires
        -0x1000_0000_0000_0000_0000 <= n <= 0x1000_0000_0000_0000_0000,
    ensures
        n + 719468 == march_start(r.0 as int) + r.1,
        0 <= r.1 <= 365,
        r.1 == 365 ==> is_leap(r.0 + 1),
        -0x100_0000_0000_0000_0000 <= r.0 <= 0x100_0000_0000_0000_0000,
{
    let z: i128 = n + 719468;
    let era: i128 = floor_div(z, 146097);
    let in_era: i128 = z - era * 146097;
    let century: i128 = if in_era / 36524 < 3 {
        in_era / 36524
    } else {
        3
    };
    let in_century: i128 = in_era - century * 36524;
    let quad: i128 = in_century / 1461;
    let in_quad: i128 = in_century - quad * 1461;
    let rest: i128 = if in_quad / 365 < 3 {
        in_quad / 365
    } else {
        3
    };
    let day: i128 = in_quad - rest * 365;
    let year: i128 = era * 400 + century * 100 + quad * 4 + rest;
    proof {
        lemma_march_year(era as int, century as int, quad as int, rest as int, day as int);
    }
    (year, day)
}

/// The days of a year begun in March before a month of it.
pub open spec fn march_offset(m: int) -> int {
    if m == 3 {
        0
    } else if m == 4 {
        31
    } else if m == 5 {
        61
    } else if m == 6 {
        92
    } else if m == 7 {
        122
    } else if m == 8 {
        153
    } else if m == 9 {
        184
    } else if m == 10 {
        214
    } else if m == 11 {
        245
    } else if m == 12 {
        275
    } else if m == 1 {
        306
    } else {
        337
    }
}

/// The first of March, counted from the first of January.
proof fn lemma_march_start(y: int)
    ensures
        march_start(y) == year_start(y) + 337 + month_len(y, 2),
        march_start(y) == year_start(y + 1),
{
    lemma_year_len(y);
}

/// The days of a month from March on, counted from the first of January.
proof fn lemma_month_after_march(y: int, m: int)
    requires
        3 <= m <= 12,
    ensures
        days_before_month(y, m) == 31 + month_len(y, 2) + march_offset(m),
    decreases m,
{
    if m == 3 {
        reveal_with_fuel(days_before_month, 4);
    } else {
        lemma_month_after_march(y, m - 1);
        assert(march_offset(m) == march_offset(m - 1) + month_len(y, m - 1));
    }
}

/// The first of a month, counted from the first of March of the year in which a year
/// begun in March begins.
proof fn lemma_march_offset(y: int, m: int)
    requires
        1 <= m <= 12,
    ensures
        day_number(
            if m <= 2 {
                y + 1
            } else {
                y
            },
            m,
            1,
        ) + 719468 == march_start(y) + march_offset(m),
{
    lemma_march_start(y);
    if m <= 2 {
        reveal_with_fuel(days_before_month, 3);
    } else {
        lemma_month_after_march(y, m);
    }
}

/// The month in which a day of a year begun in March lies, and the days of that year
/// before the month.
fn march_month(day: i128) -> (r: (u8, i128))
    requires
        0 <= day <= 365,
    ensures
        1 <= r.0 <= 12,
        r.1 == march_offset(r.0 as int),
        r.1 <= day,
        day - r.1 < 31,
        r.0 == 4 || r.0 == 6 || r.0 == 9 || r.0 == 11 ==> day - r.1 < 30,
        r.0 == 2 ==> day - r.1 < 29,
{
    if day < 31 {
        (3, 0)
    } else if day < 61 {
        (4, 31)
    } else if day < 92 {
        (5, 61)
    } else if day < 122 {
        (6, 92)
    } else if day < 153 {
        (7, 122)
    } else if day < 184 {
        (8, 153)
    } else if day < 214 {
        (9, 184)
    } else if day < 245 {
        (10, 214)
    } else if day < 275 {
        (11, 245)
    } else if day < 306 {
        (12, 275)
    } else if day < 337 {
        (1, 306)
    } else {
        (2, 337)
    }
}

/// The date with a day number.
pub fn date_of_day(n: i128) -> (r: (i128, u8, u8))
    requires
        -0x1000_0000_0000_0000_0000 <= n <= 0x1000_0000_0000_0000_0000,
    ensures
        is_date(r.0 as int, r.1 as int, r.2 as int),
        day_number(r.0 as int, r.1 as int, r.2 as int) == n,
        -0x101_0000_0000_0000_0000 <= r.0 <= 0x101_0000_0000_0000_0000,
{
    let (year, day) = march_year(n);
    let (month, start) = march_month(day);
    let calendar_year: i128 = if month <= 2 {
        year + 1
    } else {
        year
    };
    proof {
        lemma_march_offset(year as int, month as int);
    }
    (calendar_year, month, (day - start + 1) as u8)
}

/// The days before a year that begins in March, from its place among four hundred years,
/// and how long that year is.
proof fn lemma_march_year(era: int, century: int, quad: int, rest: int, day: int)
    requires
        0 <= century <= 3,
        0 <= quad <= 24,
        0 <= rest <= 3,
        0 <= day,
        century < 3 ==> century * 36524 + quad * 1461 + rest * 365 + day < (century + 1) * 36524,
        quad * 1461 + rest * 365 + day <= 36524,
        rest * 365 + day <= 1460,
        rest < 3 ==> day < 365,
    ensures
        ({
            let y = era * 400 + century * 100 + quad * 4 + rest;
            &&& 365 * y + y / 4 - y / 100 + y / 400 == era * 146097 + century * 36524 + quad * 1461
                + rest * 365
            &&& 365 * y + (y + 1) / 4 - (y + 1) / 100 + (y + 1) / 400 == era * 146097 + century
                * 36524 + quad * 1461 + rest * 365 + (if is_leap(y + 1) {
                1int
            } else {
                0
            })
            &&& day <= 365
            &&& day == 365 ==> is_leap(y + 1)
        }),
{
    let y = era * 400 + century * 100 + quad * 4 + rest;
    assert(y / 400 == era);
    assert(y / 100 == era * 4 + century);
    assert(y / 4 == era * 100 + century * 25 + quad);
    assert(y % 4 == rest);
    if day == 365 {
        assert(rest == 3);
        assert((y + 1) % 4 == 0);
    }
}

// ---------------------------------------------------------------------------
// Time stamps
// ---------------------------------------------------------------------------

/// A moment as the wall clock shows it.
#[derive(Debug, Clone, Copy, PartialEq, Eq, Structural)]
pub struct LocalTime {
    pub year: u16,
    pub month: u16,
    pub day: u16,
    pub hour: u16,
    pub minute: u16,
    pub second: u16,
}

/// A year in at least four characters, a sign before a negative one.
pub open spec fn year_text(y: int) -> Seq<char> {
    if y < 0 {
        "-"@ + zero_padded(dec((-y) as nat), 3)
    } else {
        zero_padded(dec(y as nat), 4)
    }
}

/// A number in at least two digits.
pub open spec fn two_digits(n: int) -> Seq<char> {
    zero_padded(dec(n as nat), 2)
}

/// The stamp of a moment: `YYYY-MM-DD HH:MM:SS`.
pub open spec fn stamp(y: int, mo: int, d: int, h: int, mi: int, s: int) -> Seq<char> {
    year_text(y) + "-"@ + two_digits(mo) + "-"@ + two_digits(d) + " "@ + two_digits(h) + ":"@
        + two_digits(mi) + ":"@ + two_digits(s)
}

/// The stamp of what the wall clock shows.
pub open spec fn stamp_of(t: LocalTime) -> Seq<char> {
    stamp(
        t.year as int,
        t.month as int,
        t.day as int,
        t.hour as int,
        t.minute as int,
        t.second as int,
    )
}

/// Appends what follows the year in a stamp.
fn push_after_year(out: &mut String, month: u16, day: u16, hour: u16, minute: u16, second: u16)
    ensures
        final(out)@ == old(out)@ + "-"@ + two_digits(month as int) + "-"@ + two_digits(day as int)
            + " "@ + two_digits(hour as int) + ":"@ + two_digits(minute as int) + ":"@ + two_digits(
            second as int,
        ),
{
    push_text(out, "-");
    push_padded(out, month as u64, 2);
    push_text(out, "-");
    push_padded(out, day as u64, 2);
    push_text(out, " ");
    push_padded(out, hour as u64, 2);
    push_text(out, ":");
    push_padded(out, minute as u64, 2);
    push_text(out, ":");
    push_padded(out, second as u64, 2);
}

/// The stamp of what the wall clock shows: `YYYY-MM-DD HH:MM:SS`.
pub fn now_str(t: &LocalTime) -> (r: String)
    ensures
        r@ == stamp_of(*t),
{
    let mut out = String::new();
    push_padded(&mut out, t.year as u64, 4);
    assert(out@ == year_text(t.year as int));
    push_after_year(&mut out, t.month, t.day, t.hour, t.minute, t.second);
    out
}

/// The number of the local day at `now` seconds after the Unix epoch, where local time is
/// `offset` seconds ahead of UTC.
pub open spec fn local_day(now: int, offset: int) -> int {
    (now + offset) / 86400
}

/// `text` is the stamp of the midnight at which the day with the number `n` begins.
pub open spec fn stamps_day(text: Seq<char>, n: int) -> bool {
    exists|y: int, m: int, d: int| #[trigger]
        is_date(y, m, d) && day_number(y, m, d) == n && text == stamp(y, m, d, 0, 0, 0)
}

/// The stamp of the midnight that begins the local day `days` days before the one at `now`
/// seconds after the Unix epoch, where local time is `offset` seconds ahead of UTC.
pub fn cutoff(days: u64, now: u64, offset: i64) -> (r: String)
    ensures
        stamps_day(r@, local_day(now as int, offset as int) - days),
{
    let n: i128 = floor_div(now as i128 + offset as i128, 86400) - days as i128;
    let (y, m, d) = date_of_day(n);
    proof {
        lemma_days_before_month(y as int);
        assert(-0x1000_0000_0000_0000 < y < 0x1000_0000_0000_0000);
    }
    let mut out = String::new();
    if y < 0 {
        push_text(&mut out, "-");
        push_padded(&mut out, (-y) as u64, 3);
    } else {
        push_padded(&mut out, y as u64, 4);
    }
    assert(out@ == year_text(y as int));
    push_after_year(&mut out, m as u16, d as u16, 0, 0, 0);
    assert(is_date(y as int, m as int, d as int));
    out
}

/// The seconds of a time since the Unix epoch. One before the epoch counts as the epoch.
pub open spec fn seconds_of(time: Option<(u64, u32)>) -> int {
    match time {
        Some((secs, _)) => secs as int,
        None => 0,
    }
}

/// The seconds from the Unix epoch to a moment. One before the epoch counts as the epoch.
pub open spec fn seconds_at(t: std::time::SystemTime) -> int {
    seconds_of(unix_time_at(t))
}

/// The stamp of the midnight that begins the local day `days` days before the one of a
/// time, where local time is `offset` seconds ahead of UTC. A time before the Unix epoch
/// counts as the epoch.
pub fn cutoff_at(days: u64, time: Option<(u64, u32)>, offset: i64) -> (r: String)
    ensures
        stamps_day(r@, local_day(seconds_of(time), offset as int) - days),
{
    let now: u64 = match time {
        Some((secs, _)) => secs,
        None => 0,
    };
    cutoff(days, now, offset)
}

/// The stamp of the midnight that begins the local day `days` days before the one of the
/// clock's moment, where local time is `offset` seconds ahead of UTC. A clock that stands
/// before the Unix epoch counts as standing at it.
pub fn cutoff_str(days: u64, offset: i64) -> (r: String)
    ensures
        exists|t: std::time::SystemTime|
            #![trigger unix_time_at(t)]
            stamps_day(r@, local_day(seconds_at(t), offset as int) - days),
{
    cutoff_at(days, unix_time(), offset)
}

// ---------------------------------------------------------------------------
// The order of stamps
// ---------------------------------------------------------------------------

/// The order of byte strings: the first byte that differs decides, and a string comes
/// before those that continue it.
pub open spec fn bytes_le(a: Seq<u8>, b: Seq<u8>) -> bool
    decreases a.len(),
{
    if a.len() == 0 {
        true
    } else if b.len() == 0 {
        false
    } else if a[0] != b[0] {
        a[0] < b[0]
    } else {
        bytes_le(a.skip(1), b.skip(1))
    }
}

/// A moment is no later than another.
pub open spec fn no_later(a: LocalTime, b: LocalTime) -> bool {
    if a.year != b.year {
        a.year < b.year
    } else if a.month != b.month {
        a.month < b.month
    } else if a.day != b.day {
        a.day < b.day
    } else if a.hour != b.hour {
        a.hour < b.hour
    } else if a.minute != b.minute {
        a.minute < b.minute
    } else {
        a.second <= b.second
    }
}

/// A moment whose stamp has nineteen characters.
pub open spec fn has_plain_stamp(t: LocalTime) -> bool {
    t.year <= 9999 && t.month <= 99 && t.day <= 99 && t.hour <= 99 && t.minute <= 99 && t.second
        <= 99
}

/// The bytes of ASCII text.
pub open spec fn ascii(s: Seq<char>) -> Seq<u8> {
    s.map_values(|c: char| c as u8)
}

/// Where the first parts are equally long they decide, unless they are the same.
proof fn lemma_bytes_le_parts(p1: Seq<u8>, r1: Seq<u8>, p2: Seq<u8>, r2: Seq<u8>)
    requires
        p1.len() == p2.len(),
    ensures
        bytes_le(p1 + r1, p2 + r2) == (if p1 == p2 {
            bytes_le(r1, r2)
        } else {
            bytes_le(p1, p2)
        }),
    decreases p1.len(),
{
    if p1.len() == 0 {
        assert(p1 + r1 == r1 && p2 + r2 == r2);
        assert(p1 == p2);
    } else {
        assert((p1 + r1).skip(1) == p1.skip(1) + r1);
        assert((p2 + r2).skip(1) == p2.skip(1) + r2);
        lemma_bytes_le_parts(p1.skip(1), r1, p2.skip(1), r2);
        if p1[0] == p2[0] {
            if p1.skip(1) == p2.skip(1) {
                assert(p1 == seq![p1[0]] + p1.skip(1));
                assert(p2 == seq![p2[0]] + p2.skip(1));
            }
        }
    }
}

/// A string is no later than itself.
proof fn lemma_bytes_le_itself(a: Seq<u8>)
    ensures
        bytes_le(a, a),
    decreases a.len(),
{
    if a.len() > 0 {
        lemma_bytes_le_itself(a.skip(1));
    }
}

/// The digits of a number below a hundred.
proof fn lemma_two_digits(n: int)
    requires
        0 <= n <= 99,
    ensures
        two_digits(n) == seq![digit(n / 10), digit(n % 10)],
{
    reveal_with_fuel(dec, 3);
    if n < 10 {
        assert(two_digits(n) == seq![digit(n / 10), digit(n % 10)]);
    } else {
        assert(dec(n as nat) == seq![digit(n / 10), digit(n % 10)]);
    }
}

/// The digits of a year below ten thousand.
proof fn lemma_year_text(n: int)
    requires
        0 <= n <= 9999,
    ensures
        year_text(n) == two_digits(n / 100) + two_digits(n % 100),
{
    let (a, b, c, d) = (n / 1000, n / 100 % 10, n / 10 % 10, n % 10);
    lemma_two_digits(n / 100);
    lemma_two_digits(n % 100);
    reveal_with_fuel(dec, 5);
    assert(n / 10 / 10 == n / 100 && n / 10 / 10 / 10 == n / 1000);
    assert(n % 100 / 10 == c && n % 100 % 10 == d);
    assert(n / 100 / 10 == a && n / 100 % 10 == b);
    let four = seq![digit(a), digit(b), digit(c), digit(d)];
    assert(four == two_digits(n / 100) + two_digits(n % 100));
    if n < 10 {
        assert(dec(n as nat) == seq![digit(d)]);
    } else if n < 100 {
        assert(dec(n as nat) == seq![digit(c), digit(d)]);
    } else if n < 1000 {
        assert(dec(n as nat) == seq![digit(b), digit(c), digit(d)]);
    } else {
        assert(dec(n as nat) == four);
    }
    assert(zero_padded(dec(n as nat), 4) == four);
}

/// Two more digits decide where what stands before them is the same.
proof fn lemma_two_more_digits(p1: Seq<char>, p2: Seq<char>, sep: Seq<char>, n1: int, n2: int)
    requires
        p1.len() == p2.len(),
        0 <= n1 <= 99,
        0 <= n2 <= 99,
    ensures
        (p1 + sep + two_digits(n1)).len() == (p2 + sep + two_digits(n2)).len(),
        bytes_le(ascii(p1 + sep + two_digits(n1)), ascii(p2 + sep + two_digits(n2))) == (if ascii(
            p1,
        ) == ascii(p2) {
            n1 <= n2
        } else {
            bytes_le(ascii(p1), ascii(p2))
        }),
        (ascii(p1 + sep + two_digits(n1)) == ascii(p2 + sep + two_digits(n2))) == (ascii(p1)
            == ascii(p2) && n1 == n2),
{
    lemma_two_digits(n1);
    lemma_two_digits(n2);
    let (d1, d2) = (two_digits(n1), two_digits(n2));
    let (a1, a2) = (ascii(p1), ascii(p2));
    let q = ascii(sep);
    assert(ascii(p1 + sep + d1) == (a1 + q) + ascii(d1));
    assert(ascii(p2 + sep + d2) == (a2 + q) + ascii(d2));
    lemma_bytes_le_parts(a1 + q, ascii(d1), a2 + q, ascii(d2));
    lemma_bytes_le_parts(a1, q, a2, q);
    lemma_bytes_le_itself(q);
    assert((a1 + q == a2 + q) == (a1 == a2)) by {
        if a1 + q == a2 + q {
            assert(a1 == (a1 + q).take(a1.len() as int));
            assert(a2 == (a2 + q).take(a2.len() as int));
        }
    }
    let (t1, t2) = (ascii(d1), ascii(d2));
    assert(t1[0] == 48 + n1 / 10 && t1[1] == 48 + n1 % 10);
    assert(t2[0] == 48 + n2 / 10 && t2[1] == 48 + n2 % 10);
    reveal_with_fuel(bytes_le, 4);
    assert((t1 == t2) == (n1 == n2));
    assert(bytes_le(t1, t2) == (n1 <= n2));
    let (w1, w2) = ((a1 + q) + t1, (a2 + q) + t2);
    if w1 == w2 {
        assert(a1 + q == w1.take((a1 + q).len() as int));
        assert(a2 + q == w2.take((a2 + q).len() as int));
        assert(t1 == w1.skip((a1 + q).len() as int));
        assert(t2 == w2.skip((a2 + q).len() as int));
    }
}

/// Two more digits keep text within ASCII.
proof fn lemma_ascii_digits(p: Seq<char>, sep: Seq<char>, n: int)
    requires
        is_ascii_chars(p),
        is_ascii_chars(sep),
        0 <= n <= 99,
    ensures
        is_ascii_chars(p + sep + two_digits(n)),
        (p + sep + two_digits(n)).len() == p.len() + sep.len() + 2,
{
    lemma_two_digits(n);
}

/// The bytes of a stamp are those of its characters.
pub(crate) proof fn lemma_stamp_is_ascii(t: LocalTime)
    requires
        has_plain_stamp(t),
    ensures
        is_ascii_chars(stamp_of(t)),
        encode_utf8(stamp_of(t)) == ascii(stamp_of(t)),
        stamp_of(t).len() == 19,
{
    let none = Seq::<char>::empty();
    let y = t.year as int;
    lemma_year_text(y);
    lemma_ascii_digits(none, none, y / 100);
    let century = none + none + two_digits(y / 100);
    lemma_ascii_digits(century, none, y % 100);
    assert(century + none + two_digits(y % 100) == year_text(y));
    reveal_strlit("-");
    reveal_strlit(" ");
    reveal_strlit(":");
    let month = year_text(y) + "-"@ + two_digits(t.month as int);
    lemma_ascii_digits(year_text(y), "-"@, t.month as int);
    let day = month + "-"@ + two_digits(t.day as int);
    lemma_ascii_digits(month, "-"@, t.day as int);
    let hour = day + " "@ + two_digits(t.hour as int);
    lemma_ascii_digits(day, " "@, t.hour as int);
    let minute = hour + ":"@ + two_digits(t.minute as int);
    lemma_ascii_digits(hour, ":"@, t.minute as int);
    lemma_ascii_digits(minute, ":"@, t.second as int);
    is_ascii_chars_encode_utf8(stamp_of(t));
    assert(encode_utf8(stamp_of(t)) =~= ascii(stamp_of(t)));
}

/// Stamps are in the order of time: of two moments, the stamp of the earlier one comes
/// first, byte by byte.
pub proof fn law_stamps_are_in_the_order_of_time(a: LocalTime, b: LocalTime)
    requires
        has_plain_stamp(a),
        has_plain_stamp(b),
    ensures
        bytes_le(encode_utf8(stamp_of(a)), encode_utf8(stamp_of(b))) == no_later(a, b),
{
    lemma_stamp_is_ascii(a);
    lemma_stamp_is_ascii(b);
    let (y1, y2) = (a.year as int, b.year as int);
    lemma_year_text(y1);
    lemma_year_text(y2);
    let none = Seq::<char>::empty();
    let (e1, e2) = (none + none + two_digits(y1 / 100), none + none + two_digits(y2 / 100));
    lemma_two_more_digits(none, none, none, y1 / 100, y2 / 100);
    lemma_two_more_digits(e1, e2, none, y1 % 100, y2 % 100);
    assert(e1 + none + two_digits(y1 % 100) == year_text(y1));
    assert(e2 + none + two_digits(y2 % 100) == year_text(y2));
    let (m1, m2) = (
        year_text(y1) + "-"@ + two_digits(a.month as int),
        year_text(y2) + "-"@ + two_digits(b.month as int),
    );
    lemma_two_more_digits(year_text(y1), year_text(y2), "-"@, a.month as int, b.month as int);
    let (d1, d2) = (
        m1 + "-"@ + two_digits(a.day as int),
        m2 + "-"@ + two_digits(b.day as int),
    );
    lemma_two_more_digits(m1, m2, "-"@, a.day as int, b.day as int);
    let (h1, h2) = (
        d1 + " "@ + two_digits(a.hour as int),
        d2 + " "@ + two_digits(b.hour as int),
    );
    lemma_two_more_digits(d1, d2, " "@, a.hour as int, b.hour as int);
    let (i1, i2) = (
        h1 + ":"@ + two_digits(a.minute as int),
        h2 + ":"@ + two_digits(b.minute as int),
    );
    lemma_two_more_digits(h1, h2, ":"@, a.minute as int, b.minute as int);
    lemma_two_more_digits(i1, i2, ":"@, a.second as int, b.second as int);
}

} // verus!
