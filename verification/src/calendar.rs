//! Calendar dates: month arithmetic that rolls over like JavaScript's `Date`,
//! the contribution windows of the GraphQL query, and the date texts of the card.
//!
//! Dates are held as plain year/month/day values; chrono does the calendar work
//! and the formatting behind the wrappers at the end of this file.

use vstd::prelude::*;
use chrono::Datelike;

use crate::text::decimal;

verus! {

/// The earliest year chrono's `NaiveDate` holds.
pub const MIN_YEAR: i32 = -262143;

/// The latest year chrono's `NaiveDate` holds.
pub const MAX_YEAR: i32 = 262142;

/// A day of the proleptic Gregorian calendar (`month` and `day` count from 1).
#[derive(Clone, Copy, Debug, PartialEq, Eq, Structural)]
pub struct CalendarDate {
    pub year: i32,
    pub month: u32,
    pub day: u32,
}

/// Gregorian leap years (the year before 1 is 0, so -4 is a leap year).
pub open spec fn is_leap_year(year: int) -> bool {
    year % 4 == 0 && (year % 100 != 0 || year % 400 == 0)
}

/// The number of days of a month (1..=12) of a year.
pub open spec fn days_in_month(year: int, month: int) -> int {
    if month == 2 {
        if is_leap_year(year) {
            29
        } else {
            28
        }
    } else if month == 4 || month == 6 || month == 9 || month == 11 {
        30
    } else {
        31
    }
}

/// The number of days of the years from year 0 up to (not including) `year`;
/// negative for years before 0.
pub open spec fn days_before_year(year: int) -> int {
    365 * year + (year + 3) / 4 - (year + 99) / 100 + (year + 399) / 400
}

/// The number of days of the months of `year` before `month` (1..=12).
pub open spec fn days_before_month(year: int, month: int) -> int
    decreases month,
{
    if month <= 1 {
        0
    } else {
        days_before_month(year, month - 1) + days_in_month(year, month - 1)
    }
}

/// The number of days from 0000-01-01 to `date` (negative before it).
pub open spec fn day_number(date: CalendarDate) -> int {
    days_before_year(date.year as int) + days_before_month(date.year as int, date.month as int)
        + date.day - 1
}

/// The day of the week of a date, counted from Sunday = 0 (0000-01-01 was a
/// Saturday in the proleptic Gregorian calendar).
pub open spec fn weekday_of(date: CalendarDate) -> int {
    (day_number(date) + 6) % 7
}

/// A day that exists in the calendar and in chrono's range of years.
pub open spec fn is_valid_date(year: int, month: int, day: int) -> bool {
    &&& MIN_YEAR <= year <= MAX_YEAR
    &&& 1 <= month <= 12
    &&& 1 <= day <= days_in_month(year, month)
}

impl CalendarDate {
    pub open spec fn is_valid(self) -> bool {
        is_valid_date(self.year as int, self.month as int, self.day as int)
    }

    /// The first day that chrono can represent.
    pub open spec fn is_earliest(self) -> bool {
        self.year == MIN_YEAR && self.month == 1 && self.day == 1
    }
}

/// The first day of the month `month_index` months after January of `year`;
/// the index may lie outside `0..=11` and then moves into later or earlier years.
pub open spec fn first_of_month(year: int, month_index: int) -> CalendarDate {
    CalendarDate {
        year: (year + month_index / 12) as i32,
        month: (month_index % 12 + 1) as u32,
        day: 1,
    }
}

/// The day before `date`.
pub open spec fn previous_day(date: CalendarDate) -> CalendarDate {
    if date.day > 1 {
        CalendarDate { year: date.year, month: date.month, day: (date.day - 1) as u32 }
    } else if date.month > 1 {
        CalendarDate {
            year: date.year,
            month: (date.month - 1) as u32,
            day: days_in_month(date.year as int, date.month - 1) as u32,
        }
    } else {
        CalendarDate { year: (date.year - 1) as i32, month: 12, day: 31 }
    }
}

/// The decimal numeral of `n`, with zeros in front up to `width` characters.
pub open spec fn zero_padded(n: nat, width: nat) -> Seq<char> {
    let digits = decimal(n);
    if digits.len() >= width {
        digits
    } else {
        Seq::new((width - digits.len()) as nat, |i: int| '0') + digits
    }
}

/// chrono's `%Y`: four digits for the years 0 to 9999, else a sign and at least four digits.
pub open spec fn year_text(year: int) -> Seq<char> {
    if 0 <= year <= 9999 {
        zero_padded(year as nat, 4)
    } else if year < 0 {
        seq!['-'] + zero_padded((-year) as nat, 4)
    } else {
        seq!['+'] + zero_padded(year as nat, 4)
    }
}

/// `YYYY-MM-DD`.
pub open spec fn date_text(date: CalendarDate) -> Seq<char> {
    year_text(date.year as int) + seq!['-'] + zero_padded(date.month as nat, 2) + seq!['-']
        + zero_padded(date.day as nat, 2)
}

/// `YYYY-MM-DDTHH:MM:SS.000Z`, the shape of JavaScript's `toISOString`.
pub open spec fn iso_text(date: CalendarDate, hour: nat, minute: nat, second: nat) -> Seq<char> {
    date_text(date) + seq!['T'] + zero_padded(hour, 2) + seq![':'] + zero_padded(minute, 2)
        + seq![':'] + zero_padded(second, 2) + seq!['.', '0', '0', '0', 'Z']
}

/// `YYYY-MM-DDTHH:MM:SS.mmmZ`: a date and a time of day to the millisecond.
pub open spec fn timestamp_text(
    date: CalendarDate,
    hour: nat,
    minute: nat,
    second: nat,
    milli: nat,
) -> Seq<char> {
    date_text(date) + seq!['T'] + zero_padded(hour, 2) + seq![':'] + zero_padded(minute, 2)
        + seq![':'] + zero_padded(second, 2) + seq!['.'] + zero_padded(milli, 3) + seq!['Z']
}

/// The English abbreviation of a month (1..=12).
pub open spec fn short_month_name(month: int) -> Seq<char> {
    if month == 1 {
        "Jan"@
    } else if month == 2 {
        "Feb"@
    } else if month == 3 {
        "Mar"@
    } else if month == 4 {
        "Apr"@
    } else if month == 5 {
        "May"@
    } else if month == 6 {
        "Jun"@
    } else if month == 7 {
        "Jul"@
    } else if month == 8 {
        "Aug"@
    } else if month == 9 {
        "Sep"@
    } else if month == 10 {
        "Oct"@
    } else if month == 11 {
        "Nov"@
    } else {
        "Dec"@
    }
}

/// The English name of a month (1..=12).
pub open spec fn long_month_name(month: int) -> Seq<char> {
    if month == 1 {
        "January"@
    } else if month == 2 {
        "February"@
    } else if month == 3 {
        "March"@
    } else if month == 4 {
        "April"@
    } else if month == 5 {
        "May"@
    } else if month == 6 {
        "June"@
    } else if month == 7 {
        "July"@
    } else if month == 8 {
        "August"@
    } else if month == 9 {
        "September"@
    } else if month == 10 {
        "October"@
    } else if month == 11 {
        "November"@
    } else {
        "December"@
    }
}

/// `Mon D`, as on the card: the month's abbreviation, a space and the day without padding.
pub open spec fn month_day_text(date: CalendarDate) -> Seq<char> {
    short_month_name(date.month as int) + seq![' '] + decimal(date.day as nat)
}

/// What chrono's `NaiveDate::parse_from_str(text, "%Y-%m-%d")` gives for `text`,
/// as `(year, month, day)`.
pub uninterp spec fn chrono_parse_ymd(text: Seq<char>) -> Option<(i32, u32, u32)>;


/// The date of a parse result.
pub open spec fn parsed_date(parsed: Option<(i32, u32, u32)>) -> Option<CalendarDate> {
    match parsed {
        Some((y, m, d)) => Some(CalendarDate { year: y, month: m, day: d }),
        None => None,
    }
}

/// The month (0..=11) of a date text, where chrono reads one.
pub open spec fn month0_of_text(text: Seq<char>) -> Option<int> {
    match chrono_parse_ymd(text) {
        Some((y, m, d)) => Some(m - 1),
        None => None,
    }
}

/// The day of the given year, month and day, where it exists in chrono's calendar.
pub fn calendar_date(year: i32, month: u32, day: u32) -> (date: Option<CalendarDate>)
    ensures
        date is Some <==> is_valid_date(year as int, month as int, day as int),
        date matches Some(d) ==> d == (CalendarDate { year, month, day }),
{
    date_from_ymd(year, month, day)
}

/// The first day of a month, with a month index that may lie outside `0..=11`
/// (`new Date(year, monthIndex, 1)` in JavaScript).
pub fn month_start(year: i32, month_index_abs: i32) -> (date: CalendarDate)
    requires
        MIN_YEAR <= year + month_index_abs as int / 12 <= MAX_YEAR,
    ensures
        date == first_of_month(year as int, month_index_abs as int),
        date.is_valid(),
{
    let mut years: i32 = month_index_abs / 12;
    let mut month0: i32 = month_index_abs % 12;
    if month0 < 0 {
        years = years - 1;
        month0 = month0 + 12;
    }
    assert(years == month_index_abs as int / 12 && month0 == month_index_abs as int % 12);
    let real_year: i32 = year + years;
    let real_month: u32 = (month0 + 1) as u32;
    match date_from_ymd(real_year, real_month, 1) {
        Some(date) => date,
        None => {
            assert(false);
            CalendarDate { year: real_year, month: real_month, day: 1 }
        },
    }
}

/// The last day of the month before the given one (`new Date(year, monthIndex, 0)`).
pub fn day_zero(year: i32, month_index_abs: i32) -> (date: CalendarDate)
    requires
        MIN_YEAR <= year + month_index_abs as int / 12 <= MAX_YEAR,
        !first_of_month(year as int, month_index_abs as int).is_earliest(),
    ensures
        date == previous_day(first_of_month(year as int, month_index_abs as int)),
        date.is_valid(),
{
    let first = month_start(year, month_index_abs);
    day_before(first)
}

/// The time span texts of the GraphQL query for the current moment.
pub struct QueryWindow {
    /// Midnight of the first day of the month after this one, a year ago.
    pub current_year_start: String,
    /// The current moment, to the millisecond.
    pub current_year_end: String,
    /// Midnight of the first day of the month after this one, two years ago.
    pub last_year_start: String,
    /// Midnight of the last day of this month, a year ago.
    pub last_year_end: String,
}

/// The start and end texts of the two contribution windows of the query, for the
/// current moment `now` at `hour:minute:second` and `nanosecond` (above
/// 999 999 999 during a leap second).
pub fn query_window(now: CalendarDate, hour: u32, minute: u32, second: u32, nanosecond: u32) -> (window:
    QueryWindow)
    requires
        now.is_valid(),
        hour < 24,
        minute < 60,
        second < 60,
        MIN_YEAR <= now.year - 2 + now.month / 12,
    ensures
        window.current_year_start@ == iso_text(first_of_month(now.year - 1, now.month as int), 0, 0, 0),
        window.current_year_end@ == timestamp_text(
            now,
            hour as nat,
            minute as nat,
            second as nat,
            (nanosecond / 1_000_000 % 1000) as nat,
        ),
        window.last_year_start@ == iso_text(first_of_month(now.year - 2, now.month as int), 0, 0, 0),
        window.last_year_end@ == iso_text(
            previous_day(first_of_month(now.year - 1, now.month as int)),
            0,
            0,
            0,
        ),
{
    let year = now.year;
    let m: i32 = now.month as i32;
    let current_year_start = to_iso_string(month_start(year - 1, m), (0, 0, 0));
    let milli: u32 = nanosecond / 1_000_000 % 1000;
    let current_year_end = format_timestamp(now, (hour, minute, second), milli);
    let last_year_start = to_iso_string(month_start(year - 2, m), (0, 0, 0));
    let last_year_end = to_iso_string(day_zero(year - 1, m), (0, 0, 0));
    QueryWindow { current_year_start, current_year_end, last_year_start, last_year_end }
}

/// The `YYYY-MM-DDTHH:MM:SS.000Z` text of a date at a whole second, the shape of
/// JavaScript's `toISOString`.
fn to_iso_string(date: CalendarDate, hms: (u32, u32, u32)) -> (text: String)
    requires
        date.is_valid(),
        hms.0 < 24,
        hms.1 < 60,
        hms.2 < 60,
    ensures
        text@ == iso_text(date, hms.0 as nat, hms.1 as nat, hms.2 as nat),
{
    let text = format_timestamp(date, hms, 0);
    proof {
        assert(decimal(0) == seq!['0']);
        assert(zero_padded(0, 3) =~= seq!['0', '0', '0']);
        assert(text@ =~= iso_text(date, hms.0 as nat, hms.1 as nat, hms.2 as nat));
    }
    text
}

/// The date that chrono's `NaiveDate::from_ymd_opt` makes of the three numbers,
/// or `None` where no such day exists or the year lies outside chrono's range.
#[verifier::external_body]
fn date_from_ymd(year: i32, month: u32, day: u32) -> (date: Option<CalendarDate>)
    ensures
        date == (if is_valid_date(year as int, month as int, day as int) {
            Some(CalendarDate { year, month, day })
        } else {
            None
        }),
{
    chrono::NaiveDate::from_ymd_opt(year, month, day).map(
        |d| CalendarDate { year: d.year(), month: d.month(), day: d.day() },
    )
}

/// chrono's `NaiveDate - Duration::days(1)`: the day before a date.
#[verifier::external_body]
fn day_before(date: CalendarDate) -> (before: CalendarDate)
    requires
        date.is_valid(),
        !date.is_earliest(),
    ensures
        before == previous_day(date),
{
    let d = chrono::NaiveDate::from_ymd_opt(date.year, date.month, date.day).unwrap();
    let p = d - chrono::Duration::days(1);
    CalendarDate { year: p.year(), month: p.month(), day: p.day() }
}

/// chrono's `NaiveDateTime::format("%Y-%m-%dT%H:%M:%S%.3fZ")` of a date at a time
/// of day to the millisecond (`NaiveDate::and_hms_milli_opt`).
#[verifier::external_body]
fn format_timestamp(date: CalendarDate, hms: (u32, u32, u32), milli: u32) -> (text: String)
    requires
        date.is_valid(),
        hms.0 < 24,
        hms.1 < 60,
        hms.2 < 60,
        milli < 1000,
    ensures
        text@ == timestamp_text(date, hms.0 as nat, hms.1 as nat, hms.2 as nat, milli as nat),
{
    let d = chrono::NaiveDate::from_ymd_opt(date.year, date.month, date.day).unwrap();
    let dt = d.and_hms_milli_opt(hms.0, hms.1, hms.2, milli).unwrap();
    dt.format("%Y-%m-%dT%H:%M:%S%.3fZ").to_string()
}

/// chrono's `NaiveDate::format("%Y-%m-%d")` of a date.
#[verifier::external_body]
pub(crate) fn format_ymd(date: CalendarDate) -> (text: String)
    requires
        date.is_valid(),
    ensures
        text@ == date_text(date),
{
    let d = chrono::NaiveDate::from_ymd_opt(date.year, date.month, date.day).unwrap();
    d.format("%Y-%m-%d").to_string()
}

/// chrono's `NaiveDate::format("%b %-d")` of a date.
#[verifier::external_body]
pub(crate) fn format_month_day(date: CalendarDate) -> (text: String)
    requires
        date.is_valid(),
    ensures
        text@ == month_day_text(date),
{
    let d = chrono::NaiveDate::from_ymd_opt(date.year, date.month, date.day).unwrap();
    d.format("%b %-d").to_string()
}

/// chrono's `NaiveDate::format("%B")`: the English name of the date's month.
#[verifier::external_body]
pub(crate) fn format_month_name(date: CalendarDate) -> (text: String)
    requires
        date.is_valid(),
    ensures
        text@ == long_month_name(date.month as int),
{
    let d = chrono::NaiveDate::from_ymd_opt(date.year, date.month, date.day).unwrap();
    d.format("%B").to_string()
}

/// chrono's `NaiveDate::parse_from_str(text, "%Y-%m-%d")`; what it accepts is left
/// to the name `chrono_parse_ymd`, of which only this is stated: what it gives is a
/// day that exists, and the text of an existing day of the years 0 to 9999, written
/// `YYYY-MM-DD` (four digits of year, two of month and two of day), gives that day
/// (chrono reads up to four digits of an unsigned year and up to two of month and
/// day, and the separators as they stand).
#[verifier::external_body]
pub(crate) fn parse_ymd(text: &str) -> (date: Option<CalendarDate>)
    ensures
        date == parsed_date(chrono_parse_ymd(text@)),
        date matches Some(d) ==> d.is_valid(),
        forall|d: CalendarDate|
            d.is_valid() && 0 <= d.year <= 9999 && #[trigger] date_text(d) == text@ ==> date
                == Some(d),
{
    chrono::NaiveDate::parse_from_str(text, "%Y-%m-%d").ok().map(
        |d| CalendarDate { year: d.year(), month: d.month(), day: d.day() },
    )
}

/// chrono's `NaiveDate::weekday().num_days_from_sunday()`: the date's day of the
/// week in the proleptic Gregorian calendar, 0 for Sunday up to 6 for Saturday.
#[verifier::external_body]
pub(crate) fn weekday_from_sunday(date: CalendarDate) -> (weekday: u32)
    requires
        date.is_valid(),
    ensures
        weekday == weekday_of(date),
{
    let d = chrono::NaiveDate::from_ymd_opt(date.year, date.month, date.day).unwrap();
    d.weekday().num_days_from_sunday()
}

} // verus!
