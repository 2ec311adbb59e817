//! The proleptic Gregorian calendar, as day numbers.
//!
//! A date is represented by its day number: the count of days with
//! 0001-01-01 as day 1, as chrono numbers them. The calendar itself is
//! computed by chrono; what its results mean is stated here over the closed
//! formulas of the Gregorian calendar.
use chrono::Datelike;
use chrono::NaiveDate;
use vstd::prelude::*;

verus! {

/// The earliest year that chrono's `NaiveDate` represents.
pub const MIN_YEAR: i32 = -262143;

/// The latest year that chrono's `NaiveDate` represents.
pub const MAX_YEAR: i32 = 262142;

pub open spec fn is_leap_year(y: int) -> bool {
    y % 4 == 0 && (y % 100 != 0 || y % 400 == 0)
}

pub open spec fn days_in_year(y: int) -> int {
    if is_leap_year(y) { 366 } else { 365 }
}

/// Number of days from 0001-01-01 (exclusive of its day number 1) to the
/// first day of year `y`: the day number of 31 December of year `y - 1`.
pub open spec fn days_before_year(y: int) -> int {
    365 * (y - 1) + (y - 1) / 4 - (y - 1) / 100 + (y - 1) / 400
}

pub open spec fn days_in_month(y: int, m: int) -> int {
    if m == 2 {
        if is_leap_year(y) { 29 } else { 28 }
    } else if m == 4 || m == 6 || m == 9 || m == 11 {
        30
    } else {
        31
    }
}

pub open spec fn days_before_month(y: int, m: int) -> int {
    let common: int = if m <= 1 { 0 }
        else if m == 2 { 31 }
        else if m == 3 { 59 }
        else if m == 4 { 90 }
        else if m == 5 { 120 }
        else if m == 6 { 151 }
        else if m == 7 { 181 }
        else if m == 8 { 212 }
        else if m == 9 { 243 }
        else if m == 10 { 273 }
        else if m == 11 { 304 }
        else { 334 };
    if m > 2 && is_leap_year(y) { common + 1 } else { common }
}

pub open spec fn is_valid_ymd(y: int, m: int, d: int) -> bool {
    1 <= m <= 12 && 1 <= d <= days_in_month(y, m)
}

pub open spec fn year_in_range(y: int) -> bool {
    MIN_YEAR <= y <= MAX_YEAR
}

/// Day number of the date `y-m-d`.
pub open spec fn ymd_day_number(y: int, m: int, d: int) -> int {
    days_before_year(y) + days_before_month(y, m) + d
}

/// Year `y` holds the day number `n`, as its day `n - days_before_year(y)`.
pub open spec fn year_holds(y: int, n: int) -> bool {
    days_before_year(y) < n <= days_before_year(y) + days_in_year(y)
}

/// The day numbers that chrono represents: from 1 January of `MIN_YEAR` to
/// 31 December of `MAX_YEAR`.
pub open spec fn day_in_range(n: int) -> bool {
    days_before_year(MIN_YEAR as int) < n <= days_before_year(MAX_YEAR + 1)
}

/// What chrono reads from `s` with the format `%Y-%m-%d`: the day number of
/// the date, or nothing where `s` is not such a date.
pub uninterp spec fn parsed_day_number(s: Seq<char>) -> Option<int>;

/// The next year starts where the current one ends.
pub proof fn lemma_next_year(y: int)
    ensures
        days_before_year(y + 1) == days_before_year(y) + days_in_year(y),
{
}

/// Later years start later: each year between `a` and `b` adds 365 or 366
/// days.
pub proof fn lemma_years_ordered(a: int, b: int)
    requires
        a <= b,
    ensures
        days_before_year(a) + 365 * (b - a) <= days_before_year(b),
        days_before_year(b) <= days_before_year(a) + 366 * (b - a),
    decreases b - a,
{
    if a < b {
        lemma_years_ordered(a, b - 1);
        lemma_next_year(b - 1);
    }
}

/// Each day number lies in at most one year.
pub proof fn lemma_year_unique(y1: int, y2: int, n: int)
    requires
        year_holds(y1, n),
        year_holds(y2, n),
    ensures
        y1 == y2,
{
    if y1 < y2 {
        lemma_years_ordered(y1 + 1, y2);
        lemma_next_year(y1);
    } else if y2 < y1 {
        lemma_years_ordered(y2 + 1, y1);
        lemma_next_year(y2);
    }
}

/// A day of a year in chrono's range is in chrono's range.
pub proof fn lemma_in_range(y: int, n: int)
    requires
        year_in_range(y),
        year_holds(y, n),
    ensures
        day_in_range(n),
{
    lemma_years_ordered(MIN_YEAR as int, y);
    lemma_years_ordered(y + 1, MAX_YEAR + 1);
    lemma_next_year(y);
}

/// chrono's error for text that is not a date in the expected format.
#[verifier::external_type_specification]
#[verifier::external_body]
pub struct ExParseError(chrono::ParseError);

/// Relies on `NaiveDate::parse_from_str` with the format `%Y-%m-%d` and on
/// `Datelike::num_days_from_ce`: the day number of the date read from `s`.
/// Every `NaiveDate` lies in chrono's range of years.
#[verifier::external_body]
fn parse_ymd(s: &str) -> (r: Result<i32, chrono::ParseError>)
    ensures
        r is Ok <==> parsed_day_number(s@) is Some,
        r is Ok ==> parsed_day_number(s@) == Some(r->Ok_0 as int) && day_in_range(r->Ok_0 as int),
{
    NaiveDate::parse_from_str(s, "%Y-%m-%d").map(|d| d.num_days_from_ce())
}

/// Relies on `NaiveDate::from_ymd_opt` and `Datelike::num_days_from_ce`:
/// a date exists where the month and day are valid and the year is in range,
/// and then has the day number of the Gregorian calendar.
#[verifier::external_body]
fn days_from_ymd(year: i32, month: u32, day: u32) -> (r: Option<i32>)
    ensures
        r is Some == (year_in_range(year as int) && is_valid_ymd(year as int, month as int, day as int)),
        r matches Some(n) ==> n == ymd_day_number(year as int, month as int, day as int),
{
    NaiveDate::from_ymd_opt(year, month, day).map(|d| d.num_days_from_ce())
}

/// Relies on `NaiveDate::from_num_days_from_ce_opt`, `Datelike::year` and
/// `Datelike::ordinal`: the year that holds day number `days`, and the day's
/// place within that year.
#[verifier::external_body]
fn year_and_ordinal(days: i32) -> (r: Option<(i32, u32)>)
    ensures
        r is Some <==> day_in_range(days as int),
        r matches Some((y, o)) ==> year_in_range(y as int) && year_holds(y as int, days as int)
            && o == days - days_before_year(y as int),
{
    NaiveDate::from_num_days_from_ce_opt(days).map(|d| (d.year(), d.ordinal()))
}

/// A calendar date, held as its day number.
#[derive(Clone, Copy, Debug, PartialEq, Eq, Structural)]
pub struct Date {
    days: i32,
}

impl View for Date {
    type V = int;

    closed spec fn view(&self) -> int {
        self.days as int
    }
}

impl Date {
    /// The day number lies in the range that chrono represents.
    pub open spec fn wf(&self) -> bool {
        day_in_range(self@)
    }

    /// The date `year-month-day`, where it exists and its year is in range.
    pub fn from_ymd(year: i32, month: u32, day: u32) -> (r: Option<Date>)
        ensures
            r is Some == (year_in_range(year as int) && is_valid_ymd(year as int, month as int, day as int)),
            r matches Some(d) ==> d.wf() && d@ == ymd_day_number(year as int, month as int, day as int),
    {
        match days_from_ymd(year, month, day) {
            Some(n) => {
                proof {
                    lemma_in_range(year as int, n as int);
                }
                Some(Date { days: n })
            },
            None => None,
        }
    }

    /// The date written in `s` as `YYYY-MM-DD`.
    pub fn parse(s: &str) -> (r: Result<Date, chrono::ParseError>)
        ensures
            r is Ok == parsed_day_number(s@) is Some,
            r matches Ok(d) ==> d.wf() && parsed_day_number(s@) == Some(d@),
    {
        match parse_ymd(s) {
            Ok(n) => Ok(Date { days: n }),
            Err(e) => Err(e),
        }
    }

    /// The year that holds this date, and the date's day within that year
    /// (1 for 1 January).
    pub fn year_and_ordinal(&self) -> (r: (i32, u32))
        requires
            self.wf(),
        ensures
            year_in_range(r.0 as int),
            year_holds(r.0 as int, self@),
            r.1 == self@ - days_before_year(r.0 as int),
    {
        year_and_ordinal(self.days).unwrap()
    }

    /// Two dates with the same day number are the same date.
    pub proof fn lemma_view_eq(a: Date, b: Date)
        requires
            a@ == b@,
        ensures
            a == b,
    {
    }

    /// The date with day number `n`.
    pub fn from_days(n: i32) -> (r: Date)
        requires
            day_in_range(n as int),
        ensures
            r.wf(),
            r@ == n,
    {
        Date { days: n }
    }

    pub fn day_number(&self) -> (r: i32)
        ensures
            r == self@,
    {
        self.days
    }
}

} // verus!
