//! Calendar data: year → months → days, with weekday labels and week grouping.
//!
//! Dates follow the proleptic Gregorian calendar, as `chrono::NaiveDate` does;
//! the arithmetic model of that calendar is spelled out below so that the
//! contracts can name the weekday of any date.
use vstd::prelude::*;
use chrono::Datelike;
use vstd::string::StringExecFns;

verus! {

/// The earliest year `chrono::NaiveDate` represents.
pub const MIN_YEAR: i32 = -262143;
/// The latest year `chrono::NaiveDate` represents.
pub const MAX_YEAR: i32 = 262142;

/// Month names indexed by month number (1-based; index 0 is empty).
pub const MONTH_NAMES: [&'static str; 13] = [
    "",
    "January",
    "February",
    "March",
    "April",
    "May",
    "June",
    "July",
    "August",
    "September",
    "October",
    "November",
    "December",
];

/// Gregorian leap-year rule.
pub open spec fn is_leap(y: int) -> bool {
    y % 4 == 0 && (y % 100 != 0 || y % 400 == 0)
}

/// Number of days in month `m` (1..=12) of year `y`.
pub open spec fn month_len(y: int, m: int) -> int {
    if m == 2 {
        if is_leap(y) { 29 } else { 28 }
    } else if m == 4 || m == 6 || m == 9 || m == 11 {
        30
    } else {
        31
    }
}

/// Whether `y-m-d` is a calendar date that `chrono::NaiveDate` can hold.
pub open spec fn valid_date(y: int, m: int, d: int) -> bool {
    &&& MIN_YEAR <= y <= MAX_YEAR
    &&& 1 <= m <= 12
    &&& 1 <= d <= month_len(y, m)
}

/// Days in the years before `y` (counting from year 1; negative before it).
pub open spec fn days_before_year(y: int) -> int {
    let p = y - 1;
    365 * p + p / 4 - p / 100 + p / 400
}

/// Days in the months of year `y` before month `m`.
pub open spec fn days_before_month(y: int, m: int) -> int
    decreases m,
{
    if m <= 1 {
        0
    } else {
        days_before_month(y, m - 1) + month_len(y, m - 1)
    }
}

/// Day number of a date: 0001-01-01 is day 1, and consecutive dates have
/// consecutive numbers.
pub open spec fn day_number(y: int, m: int, d: int) -> int {
    days_before_year(y) + days_before_month(y, m) + d
}

/// Weekday of a date, 0 = Monday … 6 = Sunday (0001-01-01 was a Monday).
pub open spec fn weekday_of(y: int, m: int, d: int) -> int {
    (day_number(y, m, d) - 1) % 7
}

/// Three-letter weekday label for weekday index `w` (0 = Monday).
pub open spec fn weekday_label(w: int) -> Seq<char> {
    if w == 0 {
        "Mon"@
    } else if w == 1 {
        "Tue"@
    } else if w == 2 {
        "Wed"@
    } else if w == 3 {
        "Thu"@
    } else if w == 4 {
        "Fri"@
    } else if w == 5 {
        "Sat"@
    } else {
        "Sun"@
    }
}

/// English month name for month `m` (1..=12).
pub open spec fn month_name(m: int) -> Seq<char> {
    if m == 1 {
        "January"@
    } else if m == 2 {
        "February"@
    } else if m == 3 {
        "March"@
    } else if m == 4 {
        "April"@
    } else if m == 5 {
        "May"@
    } else if m == 6 {
        "June"@
    } else if m == 7 {
        "July"@
    } else if m == 8 {
        "August"@
    } else if m == 9 {
        "September"@
    } else if m == 10 {
        "October"@
    } else if m == 11 {
        "November"@
    } else {
        "December"@
    }
}

/// The weekday a `week_start` setting names: `"sun"` → Sunday, `"mon"` → Monday.
pub open spec fn week_start_index(week_start: Seq<char>) -> Option<int> {
    if week_start == "sun"@ {
        Some(6)
    } else if week_start == "mon"@ {
        Some(0)
    } else {
        None
    }
}

/// Calendar-level errors.
#[derive(Debug, Clone, PartialEq, Eq)]
pub enum CalendarError {
    /// `week_start` was neither `"sun"` nor `"mon"`; holds the value given.
    BadWeekStart(String),
}

/// One day of a month page.
#[derive(Debug, Clone, PartialEq)]
pub struct Day {
    pub day: u32,
    pub weekday: &'static str,
    /// True when this day begins a new week (never for the 1st of the month).
    pub week_start: bool,
}

/// One month: its days in order.
#[derive(Debug, Clone, PartialEq)]
pub struct Month {
    pub year: i32,
    pub month: u32,
    pub name: &'static str,
    pub days: Vec<Day>,
}

/// What `build_month(year, month, ws)` yields: the month's days in order, each
/// labelled with its weekday, with `week_start` set on every day other than the
/// 1st that falls on the week-start weekday `ws`.
pub open spec fn month_matches(m: Month, year: int, month: int, ws: int) -> bool {
    &&& m.year == year
    &&& m.month == month
    &&& m.name@ == month_name(month)
    &&& m.days@.len() == month_len(year, month)
    &&& forall|i: int|
        0 <= i < m.days@.len() ==> {
            let d = #[trigger] m.days@[i];
            &&& d.day == i + 1
            &&& d.weekday@ == weekday_label(weekday_of(year, month, i + 1))
            &&& d.week_start == (i != 0 && weekday_of(year, month, i + 1) == ws)
        }
}

/// `NaiveDate::from_ymd_opt(y, m, d)?.weekday().num_days_from_monday()`: the
/// weekday of a valid date counted from Monday. chrono documents
/// `NaiveDate` as the proleptic Gregorian calendar, so the contract claims
/// that this equals the weekday of the arithmetic model above.
#[verifier::external_body]
fn chrono_weekday(y: i32, m: u32, d: u32) -> (w: u32)
    requires
        valid_date(y as int, m as int, d as int),
    ensures
        w == weekday_of(y as int, m as int, d as int),
{
    chrono::NaiveDate::from_ymd_opt(y, m, d).unwrap().weekday().num_days_from_monday()
}

/// `NaiveDate::from_ymd_opt(y, m, d)?.pred_opt()?.day()`: the day-of-month of
/// the date before a valid date. The contract claims the Gregorian answer: the
/// previous day in the same month, or else the last day of the previous month.
#[verifier::external_body]
fn chrono_pred_day(y: i32, m: u32, d: u32) -> (r: u32)
    requires
        valid_date(y as int, m as int, d as int),
        !(y == MIN_YEAR && m == 1 && d == 1),
    ensures
        r == (if d > 1 {
            d - 1
        } else if m > 1 {
            month_len(y as int, m - 1)
        } else {
            31
        }),
{
    chrono::NaiveDate::from_ymd_opt(y, m, d).unwrap().pred_opt().unwrap().day()
}

/// Whether `days_in_month(year, month)` is defined: the first day of the
/// following month must be a date chrono can hold.
pub open spec fn month_in_range(year: int, month: int) -> bool {
    &&& 1 <= month <= 12
    &&& MIN_YEAR <= year <= MAX_YEAR
    &&& (month == 12 ==> year < MAX_YEAR)
}

/// Whether `month` of `year` is a month `build_month` can lay out.
pub fn is_month_in_range(year: i32, month: u32) -> (r: bool)
    ensures
        r == month_in_range(year as int, month as int),
{
    1 <= month && month <= 12 && MIN_YEAR <= year && year <= MAX_YEAR && (month != 12 || year < MAX_YEAR)
}

/// Number of days in `month` of `year` (the day before the 1st of the next month).
pub fn days_in_month(year: i32, month: u32) -> (n: u32)
    requires
        month_in_range(year as int, month as int),
    ensures
        n == month_len(year as int, month as int),
{
    let (ny, nm) = if month == 12 {
        (year + 1, 1u32)
    } else {
        (year, month + 1)
    };
    chrono_pred_day(ny, nm, 1)
}

fn weekday_abbr(w: u32) -> (s: &'static str)
    requires
        w < 7,
    ensures
        s@ == weekday_label(w as int),
{
    if w == 0 {
        "Mon"
    } else if w == 1 {
        "Tue"
    } else if w == 2 {
        "Wed"
    } else if w == 3 {
        "Thu"
    } else if w == 4 {
        "Fri"
    } else if w == 5 {
        "Sat"
    } else {
        "Sun"
    }
}

/// The English name of month `m` (1..=12).
pub fn name_of_month(m: u32) -> (s: &'static str)
    requires
        1 <= m <= 12,
    ensures
        s@ == month_name(m as int),
{
    if m == 1 {
        "January"
    } else if m == 2 {
        "February"
    } else if m == 3 {
        "March"
    } else if m == 4 {
        "April"
    } else if m == 5 {
        "May"
    } else if m == 6 {
        "June"
    } else if m == 7 {
        "July"
    } else if m == 8 {
        "August"
    } else if m == 9 {
        "September"
    } else if m == 10 {
        "October"
    } else if m == 11 {
        "November"
    } else {
        "December"
    }
}

fn week_start_weekday(week_start: &str) -> (r: Result<u32, CalendarError>)
    ensures
        match r {
            Ok(w) => week_start_index(week_start@) == Some(w as int),
            Err(e) => week_start_index(week_start@) is None && e == CalendarError::BadWeekStart(
                e->BadWeekStart_0,
            ) && e->BadWeekStart_0@ == week_start@,
        },
{
    let v = crate::text::chars_of(week_start);
    proof {
        reveal_strlit("sun");
        reveal_strlit("mon");
    }
    if v.len() == 3 && v[0] == 's' && v[1] == 'u' && v[2] == 'n' {
        assert(week_start@ == "sun"@);
        Ok(6)
    } else if v.len() == 3 && v[0] == 'm' && v[1] == 'o' && v[2] == 'n' {
        assert(week_start@ == "mon"@);
        Ok(0)
    } else {
        assert(week_start@ != "sun"@);
        assert(week_start@ != "mon"@);
        Err(CalendarError::BadWeekStart(String::from_str(week_start)))
    }
}


/// Whether `build_month(year, month, ws)` is defined for a valid `ws`: the month
/// must be 1..=12 and every day of it a date chrono can hold.
pub open spec fn build_month_ok(year: int, month: int) -> bool {
    month_in_range(year, month)
}

/// Build one month: every day labelled with its weekday, with `week_start` set
/// on each day after the 1st that falls on the configured week-start day.
/// `week_start` must be `"sun"` or `"mon"`; anything else is an error (checked
/// before the month is looked at).
pub fn build_month(year: i32, month: u32, week_start: &str) -> (r: Result<Month, CalendarError>)
    requires
        week_start_index(week_start@) is Some ==> build_month_ok(year as int, month as int),
    ensures
        r is Ok <==> week_start_index(week_start@) is Some,
        r matches Ok(m) ==> month_matches(
            m,
            year as int,
            month as int,
            week_start_index(week_start@)->0,
        ),
        r matches Err(e) ==> e == CalendarError::BadWeekStart(e->BadWeekStart_0)
            && e->BadWeekStart_0@ == week_start@,
{
    let ws = match week_start_weekday(week_start) {
        Ok(w) => w,
        Err(e) => return Err(e),
    };
    let n = days_in_month(year, month);
    let mut days: Vec<Day> = Vec::new();
    let mut d: u32 = 1;
    while d <= n
        invariant
            n == month_len(year as int, month as int),
            build_month_ok(year as int, month as int),
            1 <= d <= n + 1,
            days@.len() == d - 1,
            forall|i: int|
                0 <= i < days@.len() ==> {
                    let x = #[trigger] days@[i];
                    &&& x.day == i + 1
                    &&& x.weekday@ == weekday_label(weekday_of(year as int, month as int, i + 1))
                    &&& x.week_start == (i != 0 && weekday_of(year as int, month as int, i + 1)
                        == ws)
                },
        decreases n + 1 - d,
    {
        let wd = chrono_weekday(year, month, d);
        days.push(Day { day: d, weekday: weekday_abbr(wd), week_start: d != 1 && wd == ws });
        d = d + 1;
    }
    Ok(Month { year, month, name: name_of_month(month), days })
}

/// Build all twelve months of `year`, January first.
pub fn build_year(year: i32, week_start: &str) -> (r: Result<Vec<Month>, CalendarError>)
    requires
        week_start_index(week_start@) is Some ==> MIN_YEAR <= year < MAX_YEAR,
    ensures
        r is Ok <==> week_start_index(week_start@) is Some,
        r matches Ok(ms) ==> ms@.len() == 12 && forall|i: int|
            0 <= i < 12 ==> month_matches(
                #[trigger] ms@[i],
                year as int,
                i + 1,
                week_start_index(week_start@)->0,
            ),
        r matches Err(e) ==> e == CalendarError::BadWeekStart(e->BadWeekStart_0)
            && e->BadWeekStart_0@ == week_start@,
{
    let mut months: Vec<Month> = Vec::new();
    let mut m: u32 = 1;
    while m <= 12
        invariant
            week_start_index(week_start@) is Some ==> MIN_YEAR <= year < MAX_YEAR,
            1 <= m <= 13,
            m > 1 ==> week_start_index(week_start@) is Some,
            months@.len() == m - 1,
            forall|i: int|
                0 <= i < months@.len() ==> month_matches(
                    #[trigger] months@[i],
                    year as int,
                    i + 1,
                    week_start_index(week_start@)->0,
                ),
        decreases 13 - m,
    {
        match build_month(year, m, week_start) {
            Ok(mo) => months.push(mo),
            Err(e) => return Err(e),
        }
        m = m + 1;
    }
    Ok(months)
}


/// Within a month, each day's weekday is the one after the previous day's.
pub proof fn lemma_next_day_weekday(y: int, m: int, d: int)
    ensures
        weekday_of(y, m, d + 1) == (weekday_of(y, m, d) + 1) % 7,
{
}

/// The 1st of a month follows the last day of the month before it.
pub proof fn lemma_month_boundary_weekday(y: int, m: int)
    requires
        1 <= m < 12,
    ensures
        weekday_of(y, m + 1, 1) == (weekday_of(y, m, month_len(y, m)) + 1) % 7,
{
}

#[verifier::spinoff_prover]
#[verifier::rlimit(40)]
proof fn lemma_div_step(y: int)
    ensures
        y / 4 - (y - 1) / 4 == if y % 4 == 0 { 1int } else { 0int },
        y / 100 - (y - 1) / 100 == if y % 100 == 0 { 1int } else { 0int },
        y / 400 - (y - 1) / 400 == if y % 400 == 0 { 1int } else { 0int },
        y % 400 == 0 ==> y % 100 == 0,
        y % 100 == 0 ==> y % 4 == 0,
{
}

proof fn lemma_days_before_december(y: int)
    ensures
        days_before_month(y, 12) == if is_leap(y) { 335int } else { 334int },
{
    reveal_with_fuel(days_before_month, 12);
}

/// Days in a whole year: 366 in a leap year, else 365.
pub proof fn lemma_year_length(y: int)
    ensures
        days_before_month(y, 12) + month_len(y, 12) == if is_leap(y) { 366int } else { 365int },
        days_before_year(y + 1) == days_before_year(y) + if is_leap(y) { 366int } else { 365int },
{
    lemma_days_before_december(y);
    lemma_div_step(y);
}

proof fn lemma_mod_succ(x: int)
    ensures
        ((x % 7) + 1) % 7 == (x + 1) % 7,
{
}

/// January 1st follows December 31st of the year before.
pub proof fn lemma_year_boundary_weekday(y: int)
    ensures
        weekday_of(y + 1, 1, 1) == (weekday_of(y, 12, 31) + 1) % 7,
{
    lemma_year_length(y);
    let n = if is_leap(y) { 366int } else { 365int };
    let a = days_before_year(y);
    let b = days_before_year(y + 1);
    assert(b == a + n);
    assert(days_before_month(y + 1, 1) == 0);
    assert(day_number(y + 1, 1, 1) == b + 1);
    assert(month_len(y, 12) == 31);
    assert(days_before_month(y, 12) == n - 31);
    assert(day_number(y, 12, 31) == a + n);
    lemma_mod_succ(a + n - 1);
}

/// In a built month, weekday labels run Monday → Sunday without gaps, and the
/// week-start marks recur every seven days.
pub proof fn lemma_month_week_rhythm(m: Month, year: int, month: int, ws: int)
    requires
        month_matches(m, year, month, ws),
    ensures
        forall|i: int|
            0 <= i < m.days@.len() - 1 ==> weekday_of(year, month, (#[trigger] m.days@[i + 1]).day as int)
                == (weekday_of(year, month, m.days@[i].day as int) + 1) % 7,
        forall|i: int|
            1 <= i < m.days@.len() - 7 ==> (#[trigger] m.days@[i + 7]).week_start
                == m.days@[i].week_start,
{
    assert forall|i: int| 0 <= i < m.days@.len() - 1 implies weekday_of(year, month, (#[trigger] m.days@[i + 1]).day as int)
        == (weekday_of(year, month, m.days@[i].day as int) + 1) % 7 by {
        let _ = m.days@[i];
        lemma_next_day_weekday(year, month, i + 1);
    }
    assert forall|i: int| 1 <= i < m.days@.len() - 7 implies (#[trigger] m.days@[i + 7]).week_start
        == m.days@[i].week_start by {
        let _ = m.days@[i];
        assert(weekday_of(year, month, i + 8) == weekday_of(year, month, i + 1));
    }
}

/// Across a built year the weekdays run on from one month into the next: the
/// 1st of each month is the weekday after the last day of the month before.
pub proof fn lemma_year_weekdays_run_on(ms: Seq<Month>, year: int, ws: int)
    requires
        ms.len() == 12,
        forall|i: int| 0 <= i < 12 ==> month_matches(#[trigger] ms[i], year, i + 1, ws),
    ensures
        forall|k: int|
            0 <= k < 11 ==> weekday_of(year, k + 2, (#[trigger] ms[k + 1]).days@[0].day as int)
                == (weekday_of(year, k + 1, ms[k].days@.last().day as int) + 1) % 7,
{
    assert forall|k: int| 0 <= k < 11 implies weekday_of(year, k + 2, (#[trigger] ms[k + 1]).days@[0].day as int)
        == (weekday_of(year, k + 1, ms[k].days@.last().day as int) + 1) % 7 by {
        let a = ms[k];
        let b = ms[k + 1];
        assert(month_matches(a, year, k + 1, ws));
        assert(month_matches(b, year, k + 2, ws));
        assert(a.days@.len() == month_len(year, k + 1));
        let _ = a.days@[a.days@.len() - 1];
        let _ = b.days@[0];
        lemma_month_boundary_weekday(year, k + 1);
    }
}

/// The English weekday abbreviations, from Monday.
pub open spec fn week_names() -> Seq<Seq<char>> {
    seq!["Mon"@, "Tue"@, "Wed"@, "Thu"@, "Fri"@, "Sat"@, "Sun"@]
}

/// Every date is labelled with its English weekday, counting in whole weeks
/// from the Unix epoch, 1970-01-01, a Thursday: a date `n` days after it
/// (or before it, for negative `n`) is `(Thursday + n) mod 7`.
pub proof fn law_weekday_label_from_epoch(y: int, m: int, d: int)
    ensures
        weekday_label(weekday_of(y, m, d)) == week_names()[(3 + day_number(y, m, d) - day_number(1970, 1, 1)) % 7],
{
    assert(days_before_year(1970) == 719162);
    assert(days_before_month(1970, 1) == 0);
    let n = day_number(y, m, d);
    assert(day_number(1970, 1, 1) == 719163);
    let w = (n - 1) % 7;
    let e = (3 + n - 719163) % 7;
    assert(n - 1 == (3 + n - 719163) + 7 * 102737);
    vstd::arithmetic::div_mod::lemma_mod_add_multiples_vanish(3 + n - 719163, 7);
    assert(((3 + n - 719163) + 7 * 102737) % 7 == e) by {
        vstd::arithmetic::div_mod::lemma_mod_multiples_vanish(102737, 3 + n - 719163, 7);
    }
    assert(w == e);
    assert(0 <= w < 7);
    reveal_strlit("Mon");
    reveal_strlit("Tue");
    reveal_strlit("Wed");
    reveal_strlit("Thu");
    reveal_strlit("Fri");
    reveal_strlit("Sat");
    reveal_strlit("Sun");
}

} // verus!
