//! Dates and wall-clock times as Unix instants (seconds since 1970-01-01
//! 00:00:00 UTC, leap seconds not counted), and their compact iCalendar text.
use vstd::prelude::*;
use chrono::Datelike;
use crate::calendar::{day_number, days_before_month, days_before_year, lemma_year_length, month_len,
    valid_date, MAX_YEAR, MIN_YEAR};
use crate::text::{pad2, pad4, push_char, push_pad2, push_pad4};
use super::zone::instant_in_range;
use super::{Date, Time};

verus! {

/// Whether `d` is a date chrono can hold.
pub open spec fn date_ok(d: Date) -> bool {
    valid_date(d.year as int, d.month as int, d.day as int)
}

/// Whether `t` is a time of day to the second.
pub open spec fn time_ok(t: Time) -> bool {
    t.hour < 24 && t.minute < 60 && t.second < 60
}

/// Day number of `d` (0001-01-01 is day 1).
pub open spec fn day_index(d: Date) -> int {
    day_number(d.year as int, d.month as int, d.day as int)
}

/// Days from 1970-01-01 to `d`.
pub open spec fn unix_day(d: Date) -> int {
    day_index(d) - 719163
}

/// The Unix instant of wall-clock `d t` read as UTC.
pub open spec fn utc_seconds(d: Date, t: Time) -> int {
    unix_day(d) * 86400 + t.hour * 3600 + t.minute * 60 + t.second
}

/// The date after `d`: the next day of the month, else the 1st of the next
/// month, else January 1st of the next year.
pub open spec fn next_date(d: Date) -> Date {
    if d.day < month_len(d.year as int, d.month as int) {
        Date { day: (d.day + 1) as u32, ..d }
    } else if d.month < 12 {
        Date { year: d.year, month: (d.month + 1) as u32, day: 1 }
    } else {
        Date { year: (d.year + 1) as i32, month: 1, day: 1 }
    }
}

/// The last date chrono can hold.
pub open spec fn last_date(d: Date) -> bool {
    d.year == MAX_YEAR && d.month == 12 && d.day == 31
}

/// `date + Duration::days(1)`: the following calendar date.
#[verifier::external_body]
pub(crate) fn succ_date(d: Date) -> (r: Date)
    requires
        date_ok(d),
        !last_date(d),
    ensures
        r == next_date(d),
{
    let n = chrono::NaiveDate::from_ymd_opt(d.year, d.month, d.day).unwrap() + chrono::Duration::days(1);
    Date { year: n.year(), month: n.month(), day: n.day() }
}

/// The next date's day number is one more, and it is a valid date.
pub proof fn lemma_next_date(d: Date)
    requires
        date_ok(d),
        !last_date(d),
    ensures
        date_ok(next_date(d)),
        day_index(next_date(d)) == day_index(d) + 1,
{
    let y = d.year as int;
    let m = d.month as int;
    if d.day < month_len(y, m) {
    } else if m < 12 {
        assert(days_before_month(y, m + 1) == days_before_month(y, m) + month_len(y, m));
    } else {
        lemma_year_length(y);
        assert(days_before_month(y + 1, 1) == 0);
    }
}

/// Dates in calendar order: by year, then month, then day.
pub open spec fn date_lt(a: Date, b: Date) -> bool {
    ||| a.year < b.year
    ||| (a.year == b.year && a.month < b.month)
    ||| (a.year == b.year && a.month == b.month && a.day < b.day)
}

proof fn lemma_years_apart(a: int, b: int)
    requires
        a < b,
    ensures
        days_before_year(a) + 365 <= days_before_year(b),
    decreases b - a,
{
    lemma_year_length(a);
    if a + 1 < b {
        lemma_years_apart(a + 1, b);
    }
}

proof fn lemma_months_apart(y: int, a: int, b: int)
    requires
        1 <= a < b,
    ensures
        days_before_month(y, a) + month_len(y, a) <= days_before_month(y, b),
    decreases b - a,
{
    if a + 1 < b {
        lemma_months_apart(y, a + 1, b);
    }
}

/// A valid date's day number lies within its year.
proof fn lemma_day_in_year(d: Date)
    requires
        date_ok(d),
    ensures
        days_before_year(d.year as int) < day_index(d) <= days_before_year(d.year + 1),
{
    let y = d.year as int;
    let m = d.month as int;
    lemma_year_length(y);
    if m > 1 {
        lemma_months_apart(y, 1, m);
    }
    if m < 12 {
        lemma_months_apart(y, m, 12);
    }
}

/// Calendar order is day-number order.
pub proof fn lemma_date_order(a: Date, b: Date)
    requires
        date_ok(a),
        date_ok(b),
        date_lt(a, b),
    ensures
        day_index(a) < day_index(b),
{
    lemma_day_in_year(a);
    lemma_day_in_year(b);
    if a.year < b.year {
        if a.year + 1 < b.year {
            lemma_years_apart(a.year + 1, b.year as int);
        }
    } else if a.month < b.month {
        lemma_months_apart(a.year as int, a.month as int, b.month as int);
    }
}

/// Distinct valid dates have distinct day numbers.
pub proof fn lemma_day_index_injective(a: Date, b: Date)
    requires
        date_ok(a),
        date_ok(b),
        day_index(a) == day_index(b),
    ensures
        a == b,
{
    if date_lt(a, b) {
        lemma_date_order(a, b);
    } else if date_lt(b, a) {
        lemma_date_order(b, a);
    }
}

/// No valid date comes after the last one chrono holds.
pub proof fn lemma_not_past_last(d: Date, e: Date)
    requires
        date_ok(d),
        date_ok(e),
        day_index(d) < day_index(e),
    ensures
        !last_date(d),
{
    if last_date(d) && date_lt(d, e) {
        lemma_date_order(d, e);
    }
    if last_date(d) && date_lt(e, d) {
        lemma_date_order(e, d);
    }
}

/// Midnight on December 31st of the year before `year` and on January 2nd of
/// the year after, read as UTC, are instants in range when both years are
/// years chrono holds.
pub proof fn lemma_pad_days_in_range(year: int)
    requires
        MIN_YEAR < year < MAX_YEAR,
    ensures
        instant_in_range(utc_seconds(Date { year: (year - 1) as i32, month: 12, day: 31 }, Time { hour: 0, minute: 0, second: 0 })),
        instant_in_range(utc_seconds(Date { year: (year + 1) as i32, month: 1, day: 2 }, Time { hour: 0, minute: 0, second: 0 })),
{
    let lo = Date { year: MIN_YEAR, month: 1, day: 2 };
    let hi = Date { year: MAX_YEAR, month: 12, day: 30 };
    let a = Date { year: (year - 1) as i32, month: 12, day: 31 };
    let b = Date { year: (year + 1) as i32, month: 1, day: 2 };
    assert(days_before_year(MIN_YEAR as int) == -95746130);
    assert(days_before_year(MAX_YEAR as int) == 95745034);
    lemma_year_length(MAX_YEAR as int);
    assert(day_index(lo) == -95746128);
    assert(day_index(hi) == 95745398);
    lemma_date_order(lo, a);
    lemma_date_order(a, hi);
    lemma_date_order(lo, b);
    lemma_date_order(b, hi);
}

/// Whether `a` comes before `b` in the calendar.
pub fn date_before(a: Date, b: Date) -> (r: bool)
    requires
        date_ok(a),
        date_ok(b),
    ensures
        r == (day_index(a) < day_index(b)),
{
    let r = a.year < b.year || (a.year == b.year && a.month < b.month) || (a.year == b.year
        && a.month == b.month && a.day < b.day);
    proof {
        if r {
            lemma_date_order(a, b);
        } else if date_lt(b, a) {
            lemma_date_order(b, a);
        }
    }
    r
}

/// The UTC calendar date of the instant `ts`.
pub open spec fn utc_date(ts: int) -> Date {
    choose|d: Date| date_ok(d) && unix_day(d) == ts / 86400
}

/// A valid date on the right day is the UTC date of the instant.
pub proof fn lemma_utc_date(ts: int, d: Date)
    requires
        date_ok(d),
        unix_day(d) == ts / 86400,
    ensures
        utc_date(ts) == d,
{
    let c = utc_date(ts);
    assert(date_ok(c) && unix_day(c) == ts / 86400);
    lemma_day_index_injective(c, d);
}

/// `NaiveDateTime::and_utc().timestamp()` of wall-clock `d t`: the Unix instant
/// of that date and time in UTC, which is what chrono documents `timestamp` as.
#[verifier::external_body]
pub(crate) fn utc_timestamp(d: Date, t: Time) -> (r: i64)
    requires
        date_ok(d),
        time_ok(t),
    ensures
        r == utc_seconds(d, t),
{
    chrono::NaiveDate::from_ymd_opt(d.year, d.month, d.day)
        .unwrap()
        .and_hms_opt(t.hour, t.minute, t.second)
        .unwrap()
        .and_utc()
        .timestamp()
}

/// `DateTime::from_timestamp(ts, 0)?.date_naive()`: the UTC calendar date of
/// the instant `ts`, the date whose day since 1970-01-01 is `ts / 86400`
/// rounded down.
#[verifier::external_body]
pub(crate) fn utc_date_of(ts: i64) -> (r: Date)
    requires
        instant_in_range(ts as int),
    ensures
        date_ok(r),
        unix_day(r) == ts as int / 86400,
{
    let d = chrono::DateTime::from_timestamp(ts, 0).unwrap().date_naive();
    Date { year: d.year(), month: d.month(), day: d.day() }
}

/// A year as chrono's `%Y` writes it: four digits, zero-padded, for years
/// 0 to 9999; otherwise a sign and at least four digits.
pub open spec fn year_text(y: int) -> Seq<char> {
    if 0 <= y < 10000 {
        pad4(y as nat)
    } else if y < 0 {
        seq!['-'] + pad4((-y) as nat)
    } else {
        seq!['+'] + pad4(y as nat)
    }
}

/// A date as `%Y%m%d` writes it.
pub open spec fn date_text(d: Date) -> Seq<char> {
    year_text(d.year as int) + pad2(d.month as nat) + pad2(d.day as nat)
}

/// A date and time as `%Y%m%dT%H%M%S` writes it.
pub open spec fn date_time_text(d: Date, t: Time) -> Seq<char> {
    date_text(d) + seq!['T'] + pad2(t.hour as nat) + pad2(t.minute as nat) + pad2(t.second as nat)
}

/// Appends `d` as `%Y%m%d`.
pub fn push_date_text(out: &mut String, d: Date)
    requires
        date_ok(d),
    ensures
        final(out)@ == old(out)@ + date_text(d),
{
    let y = d.year;
    if 0 <= y && y < 10000 {
        push_pad4(out, y as u32);
    } else if y < 0 {
        push_char(out, '-');
        push_pad4(out, (0 - y) as u32);
    } else {
        push_char(out, '+');
        push_pad4(out, y as u32);
    }
    push_pad2(out, d.month);
    push_pad2(out, d.day);
}

/// Appends `d t` as `%Y%m%dT%H%M%S`.
pub fn push_date_time_text(out: &mut String, d: Date, t: Time)
    requires
        date_ok(d),
    ensures
        final(out)@ == old(out)@ + date_time_text(d, t),
{
    push_date_text(out, d);
    push_char(out, 'T');
    push_pad2(out, t.hour);
    push_pad2(out, t.minute);
    push_pad2(out, t.second);
}

} // verus!
