//! Calendar dates (proleptic Gregorian, as chrono's `NaiveDate` has them):
//! the date arithmetic of the reports and the calendar view, done by chrono.
use vstd::prelude::*;
use crate::report::decimal;
use chrono::Datelike;

verus! {

/// A calendar date as plain numbers.
#[derive(Debug, Clone, Copy, PartialEq, Eq)]
pub struct Date {
    pub year: i32,
    pub month: u32,
    pub day: u32,
}

/// The years that chrono's `NaiveDate` represents.
pub open spec fn min_year() -> int {
    -262143
}

pub open spec fn max_year() -> int {
    262142
}

pub open spec fn is_leap(y: int) -> bool {
    y % 4 == 0 && (y % 100 != 0 || y % 400 == 0)
}

pub open spec fn days_in_month(y: int, m: int) -> int {
    if m == 2 {
        if is_leap(y) {
            29
        } else {
            28
        }
    } else if m == 4 || m == 6 || m == 9 || m == 11 {
        30
    } else {
        31
    }
}

pub open spec fn valid_ymd(y: int, m: int, d: int) -> bool {
    &&& min_year() <= y <= max_year()
    &&& 1 <= m <= 12
    &&& 1 <= d <= days_in_month(y, m)
}

pub open spec fn valid_date(d: Date) -> bool {
    valid_ymd(d.year as int, d.month as int, d.day as int)
}

pub open spec fn min_date() -> Date {
    Date { year: -262143i32, month: 1u32, day: 1u32 }
}

pub open spec fn max_date() -> Date {
    Date { year: 262142i32, month: 12u32, day: 31u32 }
}

/// Days from 0001-01-01 (day 1) to January 1st of year `y`, exclusive.
pub open spec fn days_before_year(y: int) -> int {
    365 * (y - 1) + (y - 1) / 4 - (y - 1) / 100 + (y - 1) / 400
}

pub open spec fn days_before_month(y: int, m: int) -> int {
    let base: int = if m <= 1 {
        0
    } else if m == 2 {
        31
    } else if m == 3 {
        59
    } else if m == 4 {
        90
    } else if m == 5 {
        120
    } else if m == 6 {
        151
    } else if m == 7 {
        181
    } else if m == 8 {
        212
    } else if m == 9 {
        243
    } else if m == 10 {
        273
    } else if m == 11 {
        304
    } else {
        334
    };
    if m > 2 && is_leap(y) {
        base + 1
    } else {
        base
    }
}

/// The day's number, counting 0001-01-01 as day 1.
pub open spec fn day_number(d: Date) -> int {
    days_before_year(d.year as int) + days_before_month(d.year as int, d.month as int) + d.day
}

/// The day of the week, counted from Monday (0) to Sunday (6); 0001-01-01
/// was a Monday.
pub open spec fn weekday_index(d: Date) -> int {
    weekday_of_number(day_number(d))
}

pub open spec fn weekday_of_number(n: int) -> int {
    (n - 1) % 7
}

proof fn lemma_monday(n: int, wd: int)
    requires
        wd == weekday_of_number(n),
    ensures
        0 <= wd <= 6,
        weekday_of_number(n - wd) == 0,
{
}

/// The day before `d`.
pub open spec fn previous_day(d: Date) -> Date {
    if d.day > 1 {
        Date { day: (d.day - 1) as u32, ..d }
    } else if d.month > 1 {
        Date {
            year: d.year,
            month: (d.month - 1) as u32,
            day: days_in_month(d.year as int, d.month - 1) as u32,
        }
    } else {
        Date { year: (d.year - 1) as i32, month: 12, day: 31 }
    }
}

// ---------------------------------------------------------------------------
// chrono
// ---------------------------------------------------------------------------

/// `NaiveDate::from_ymd_opt`: the date `y-m-d`, when it exists in chrono's range.
#[verifier::external_body]
pub(crate) fn date_from_ymd(year: i32, month: u32, day: u32) -> (r: Option<Date>)
    ensures
        r is Some <==> valid_ymd(year as int, month as int, day as int),
        r matches Some(x) ==> x == (Date { year, month, day }),
{
    match chrono::NaiveDate::from_ymd_opt(year, month, day) {
        Some(x) => Some(Date { year: x.year(), month: x.month(), day: x.day() }),
        None => None,
    }
}

/// `Datelike::with_day`: the same month on another day, when that day exists.
#[verifier::external_body]
pub(crate) fn date_with_day(d: &Date, day: u32) -> (r: Option<Date>)
    requires
        valid_date(*d),
    ensures
        r is Some <==> valid_ymd(d.year as int, d.month as int, day as int),
        r matches Some(x) ==> x == (Date { day, ..*d }),
{
    let nd = chrono::NaiveDate::from_ymd_opt(d.year, d.month, d.day).unwrap();
    match nd.with_day(day) {
        Some(x) => Some(Date { year: x.year(), month: x.month(), day: x.day() }),
        None => None,
    }
}

/// `NaiveDate::pred_opt`: the day before, unless `d` is chrono's first day.
#[verifier::external_body]
pub(crate) fn date_pred(d: &Date) -> (r: Option<Date>)
    requires
        valid_date(*d),
    ensures
        r is Some <==> valid_date(previous_day(*d)),
        r matches Some(x) ==> x == previous_day(*d),
{
    let nd = chrono::NaiveDate::from_ymd_opt(d.year, d.month, d.day).unwrap();
    match nd.pred_opt() {
        Some(x) => Some(Date { year: x.year(), month: x.month(), day: x.day() }),
        None => None,
    }
}

/// `NaiveDate::checked_add_days`: the date `n` days later, unless that falls
/// past chrono's last day.
#[verifier::external_body]
pub(crate) fn date_add_days(d: &Date, n: u64) -> (r: Option<Date>)
    requires
        valid_date(*d),
    ensures
        r is Some <==> day_number(*d) + n <= day_number(max_date()),
        r matches Some(x) ==> valid_date(x) && day_number(x) == day_number(*d) + n,
{
    let nd = chrono::NaiveDate::from_ymd_opt(d.year, d.month, d.day).unwrap();
    match nd.checked_add_days(chrono::Days::new(n)) {
        Some(x) => Some(Date { year: x.year(), month: x.month(), day: x.day() }),
        None => None,
    }
}

/// `NaiveDate::checked_sub_days`: the date `n` days earlier, unless that falls
/// before chrono's first day.
#[verifier::external_body]
pub(crate) fn date_sub_days(d: &Date, n: u64) -> (r: Option<Date>)
    requires
        valid_date(*d),
    ensures
        r is Some <==> day_number(*d) - n >= day_number(min_date()),
        r matches Some(x) ==> valid_date(x) && day_number(x) == day_number(*d) - n,
{
    let nd = chrono::NaiveDate::from_ymd_opt(d.year, d.month, d.day).unwrap();
    match nd.checked_sub_days(chrono::Days::new(n)) {
        Some(x) => Some(Date { year: x.year(), month: x.month(), day: x.day() }),
        None => None,
    }
}

/// `Weekday::num_days_from_monday` of `Datelike::weekday`.
#[verifier::external_body]
pub(crate) fn date_weekday_from_monday(d: &Date) -> (r: u32)
    requires
        valid_date(*d),
    ensures
        r == weekday_index(*d),
{
    chrono::NaiveDate::from_ymd_opt(d.year, d.month, d.day).unwrap().weekday().num_days_from_monday()
}

/// `n` as decimal digits, zero-padded to at least `width` digits.
pub open spec fn zero_padded(n: nat, width: nat) -> Seq<char> {
    let ds = decimal(n);
    if ds.len() < width {
        Seq::new((width - ds.len()) as nat, |i: int| '0') + ds
    } else {
        ds
    }
}

/// chrono's `%Y`: four zero-padded digits for years 0 to 9999, otherwise a
/// sign and at least four digits.
pub open spec fn year_text(y: int) -> Seq<char> {
    if 0 <= y <= 9999 {
        zero_padded(y as nat, 4)
    } else if y < 0 {
        seq!['-'] + zero_padded((-y) as nat, 4)
    } else {
        seq!['+'] + zero_padded(y as nat, 4)
    }
}

/// chrono's `%Y-%m-%d`.
pub open spec fn iso_text(d: Date) -> Seq<char> {
    year_text(d.year as int) + seq!['-'] + zero_padded(d.month as nat, 2) + seq!['-']
        + zero_padded(d.day as nat, 2)
}

/// `NaiveDate::format("%Y-%m-%d")`.
#[verifier::external_body]
fn format_ymd(d: &Date) -> (r: String)
    requires
        valid_date(*d),
    ensures
        r@ == iso_text(*d),
{
    chrono::NaiveDate::from_ymd_opt(d.year, d.month, d.day).unwrap().format("%Y-%m-%d").to_string()
}

/// What `NaiveDate::parse_from_str(s, "%Y-%m-%d")` gives for `s`, as
/// (year, month, day).
pub uninterp spec fn parsed_iso(s: Seq<char>) -> Option<(i32, u32, u32)>;

/// `NaiveDate::parse_from_str(s, "%Y-%m-%d")`; its result is named
/// `parsed_iso`. A parsed date is always a valid one.
#[verifier::external_body]
pub(crate) fn parse_iso_date(s: &str) -> (r: Option<Date>)
    ensures
        match parsed_iso(s@) {
            Some((y, m, d)) => r == Some(Date { year: y, month: m, day: d }) && valid_ymd(
                y as int,
                m as int,
                d as int,
            ),
            None => r is None,
        },
{
    match chrono::NaiveDate::parse_from_str(s, "%Y-%m-%d") {
        Ok(x) => Some(Date { year: x.year(), month: x.month(), day: x.day() }),
        Err(_) => None,
    }
}

/// The date as stored and queried: `YYYY-MM-DD` (chrono's `%Y-%m-%d`).
pub fn iso_date(d: &Date) -> (r: String)
    requires
        valid_date(*d),
    ensures
        r@ == iso_text(*d),
{
    format_ymd(d)
}

// ---------------------------------------------------------------------------
// Day numbers
// ---------------------------------------------------------------------------

proof fn lemma_div4_step(y: int)
    ensures
        y / 4 - (y - 1) / 4 == if y % 4 == 0 { 1int } else { 0int },
{
}

proof fn lemma_div100_step(y: int)
    ensures
        y / 100 - (y - 1) / 100 == if y % 100 == 0 { 1int } else { 0int },
{
}

proof fn lemma_div400_step(y: int)
    ensures
        y / 400 - (y - 1) / 400 == if y % 400 == 0 { 1int } else { 0int },
{
}

proof fn lemma_century_divisible(y: int)
    ensures
        y % 100 == 0 ==> y % 4 == 0,
        y % 400 == 0 ==> y % 100 == 0,
{
}

proof fn lemma_year_length(y: int)
    ensures
        days_before_year(y + 1) == days_before_year(y) + 365 + if is_leap(y) {
            1int
        } else {
            0int
        },
{
    lemma_div4_step(y);
    lemma_div100_step(y);
    lemma_div400_step(y);
    lemma_century_divisible(y);
}

proof fn lemma_years_increase(y1: int, y2: int)
    requires
        y1 < y2,
    ensures
        days_before_year(y1 + 1) <= days_before_year(y2),
    decreases y2 - y1,
{
    if y1 + 1 < y2 {
        lemma_years_increase(y1, y2 - 1);
        lemma_year_length(y2 - 1);
    }
}

proof fn lemma_within_year(d: Date)
    requires
        valid_date(d),
    ensures
        days_before_year(d.year as int) < day_number(d) <= days_before_year(d.year + 1),
{
    lemma_year_length(d.year as int);
}

proof fn lemma_months_increase(y: int, m1: int, m2: int)
    requires
        1 <= m1 < m2 <= 12,
    ensures
        days_before_month(y, m1) + days_in_month(y, m1) <= days_before_month(y, m2),
{
}

/// Distinct valid dates have distinct day numbers.
pub proof fn lemma_day_number_injective(a: Date, b: Date)
    requires
        valid_date(a),
        valid_date(b),
        day_number(a) == day_number(b),
    ensures
        a == b,
{
    lemma_within_year(a);
    lemma_within_year(b);
    if a.year < b.year {
        lemma_years_increase(a.year as int, b.year as int);
    } else if b.year < a.year {
        lemma_years_increase(b.year as int, a.year as int);
    }
    assert(a.year == b.year);
    if a.month < b.month {
        lemma_months_increase(a.year as int, a.month as int, b.month as int);
    } else if b.month < a.month {
        lemma_months_increase(a.year as int, b.month as int, a.month as int);
    }
}

// ---------------------------------------------------------------------------
// Months, weeks, and the days around a date
// ---------------------------------------------------------------------------

/// The number of days in `month` of `year` (the day before the first of the
/// next month).
pub fn last_day_of(year: i32, month: u32) -> (r: u32)
    requires
        1 <= month <= 12,
        min_year() <= year <= max_year(),
        month == 12 ==> year < max_year(),
    ensures
        r == days_in_month(year as int, month as int),
{
    let next_year = if month == 12 { year + 1 } else { year };
    let next_month = if month == 12 { 1 } else { month + 1 };
    let first = date_from_ymd(next_year, next_month, 1);
    let first = first.unwrap();
    let last = date_pred(&first);
    let last = last.unwrap();
    last.day
}

/// The Monday and the Sunday of the week of `d`; `None` when either falls
/// outside chrono's range.
pub fn week_range(d: &Date) -> (r: Option<(Date, Date)>)
    requires
        valid_date(*d),
    ensures
        r is Some <==> day_number(*d) - weekday_index(*d) >= day_number(min_date())
            && day_number(*d) - weekday_index(*d) + 6 <= day_number(max_date()),
        r matches Some((monday, sunday)) ==> {
            &&& valid_date(monday) && valid_date(sunday)
            &&& day_number(monday) == day_number(*d) - weekday_index(*d)
            &&& day_number(sunday) == day_number(monday) + 6
            &&& weekday_index(monday) == 0
            &&& day_number(monday) <= day_number(*d) <= day_number(sunday)
        },
{
    let wd = date_weekday_from_monday(d);
    proof {
        lemma_monday(day_number(*d), wd as int);
    }
    let monday = match date_sub_days(d, wd as u64) {
        Some(m) => m,
        None => return None,
    };
    match date_add_days(&monday, 6) {
        Some(sunday) => Some((monday, sunday)),
        None => None,
    }
}

/// The first and the last day of the month of `d`; `None` only for the last
/// month of chrono's range, whose next month does not exist.
pub fn month_range(d: &Date) -> (r: Option<(Date, Date)>)
    requires
        valid_date(*d),
    ensures
        r is Some <==> !(d.month == 12 && d.year == max_year()),
        r matches Some((first, last)) ==> {
            &&& first == (Date { day: 1, ..*d })
            &&& last == (Date { day: days_in_month(d.year as int, d.month as int) as u32, ..*d })
            &&& valid_date(first) && valid_date(last)
        },
{
    if d.month == 12 && d.year == 262142 {
        return None;
    }
    let first = date_with_day(d, 1).unwrap();
    let last = date_with_day(&first, last_day_of(d.year, d.month)).unwrap();
    Some((first, last))
}

/// The weekday of `d`, counted from Monday (0) to Sunday (6).
pub fn weekday_from_monday(d: &Date) -> (r: u32)
    requires
        valid_date(*d),
    ensures
        r == weekday_index(*d),
        r < 7,
{
    proof {
        lemma_monday(day_number(*d), weekday_index(*d));
    }
    date_weekday_from_monday(d)
}

/// The day named by `s` (`YYYY-MM-DD`), or `today` when `s` names none.
pub fn parse_date(s: &str, today: Date) -> (r: Date)
    ensures
        r == match parsed_iso(s@) {
            Some((y, m, d)) => Date { year: y, month: m, day: d },
            None => today,
        },
{
    match parse_iso_date(s) {
        Some(d) => d,
        None => today,
    }
}

/// The day before which sessions are pruned when `retention_days` days are
/// kept (none when everything is kept, or the day would precede chrono's
/// range).
pub fn prune_cutoff(today: &Date, retention_days: u64) -> (r: Option<Date>)
    requires
        valid_date(*today),
    ensures
        retention_days == 0 ==> r is None,
        retention_days > 0 ==> (r is Some <==> day_number(*today) - retention_days >= day_number(
            min_date(),
        )),
        r matches Some(x) ==> valid_date(x) && day_number(x) == day_number(*today) - retention_days,
{
    if retention_days == 0 {
        return None;
    }
    date_sub_days(today, retention_days)
}

/// The week of a date: its Monday, the date itself and its Sunday, in that
/// order, six days from Monday to Sunday.
pub proof fn law_week_contains_date(d: Date, monday: Date, sunday: Date)
    requires
        valid_date(d),
        valid_date(monday),
        day_number(monday) == day_number(d) - weekday_index(d),
        day_number(sunday) == day_number(monday) + 6,
    ensures
        weekday_index(monday) == 0,
        0 <= day_number(d) - day_number(monday) <= 6,
        weekday_index(d) == day_number(d) - day_number(monday),
{
    lemma_monday(day_number(d), weekday_index(d));
}

} // verus!
