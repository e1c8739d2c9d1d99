//! Calendar dates.
//!
//! A day is counted from 1 January of year 1 of the proleptic Gregorian
//! calendar, which is day 1 and a Monday.

use vstd::prelude::*;

use crate::text;

verus! {

/// The first day that a date can have.
pub const FIRST_DAY: i32 = -95_746_129;

/// The last day that a date can have.
pub const LAST_DAY: i32 = 95_745_399;

/// The day on which Unix time starts.
pub const UNIX_EPOCH_DAY: i64 = 719_163;

/// Whether there is a date with this day.
pub open spec fn is_day(day: int) -> bool {
    FIRST_DAY <= day <= LAST_DAY
}

/// Whether a year has a 29 February.
pub open spec fn is_leap(year: int) -> bool {
    year % 4 == 0 && (year % 100 != 0 || year % 400 == 0)
}

/// The number of days of a month.
pub open spec fn month_length(year: int, month: int) -> int {
    if month == 2 {
        if is_leap(year) {
            29
        } else {
            28
        }
    } else if month == 4 || month == 6 || month == 9 || month == 11 {
        30
    } else {
        31
    }
}

/// The days of a year before the first of a month.
pub open spec fn days_before(year: int, month: int) -> int
    decreases month,
{
    if month <= 1 {
        0
    } else {
        days_before(year, month - 1) + month_length(year, month - 1)
    }
}

/// Whether `year`-`month`-`dom` is the date with the given day.
pub open spec fn is_date(year: int, month: int, dom: int, day: int) -> bool {
    &&& 1 <= month <= 12
    &&& 1 <= dom <= month_length(year, month)
    &&& day == 365 * (year - 1) + (year - 1) / 4 - (year - 1) / 100 + (year - 1) / 400
        + days_before(year, month) + dom
}

/// A number below a hundred with two digits.
pub open spec fn two_digits(n: int) -> Seq<char> {
    seq![text::digit_char(n / 10), text::digit_char(n % 10)]
}

/// A year: four digits, and a sign in front with more where they do not do.
pub open spec fn year_text(year: int) -> Seq<char> {
    if 0 <= year <= 9999 {
        two_digits(year / 100) + two_digits(year % 100)
    } else if year > 0 {
        seq!['+'] + text::decimal(year as nat)
    } else if year > -10_000 {
        seq!['-'] + two_digits(-year / 100) + two_digits(-year % 100)
    } else {
        seq!['-'] + text::decimal((-year) as nat)
    }
}

/// The ISO 8601 notation of a date.
pub open spec fn iso_text(year: int, month: int, dom: int) -> Seq<char> {
    year_text(year) + seq!['-'] + two_digits(month) + seq!['-'] + two_digits(dom)
}

/// The ISO 8601 notation of the date with the given day.
pub open spec fn date_text(day: int) -> Seq<char> {
    let (year, month, dom) = choose|year: int, month: int, dom: int|
        is_date(year, month, dom, day);
    iso_text(year, month, dom)
}

/// Whether the date with the given day has a year of four plain digits.
pub open spec fn has_plain_year(day: int) -> bool {
    -365 <= day <= 3_652_059
}

/// Calls `chrono::NaiveDate::from_num_days_from_ce_opt` and writes the date
/// with its `Display`. Claimed: there is a date exactly for the days of
/// [`is_day`], and it is written in ISO 8601 notation.
#[verifier::external_body]
pub(crate) fn format_day(day: i32) -> (res: Option<String>)
    ensures
        res is Some <==> is_day(day as int),
        res is Some ==> res->Some_0@ == date_text(day as int),
{
    chrono::NaiveDate::from_num_days_from_ce_opt(day).map(|date| date.to_string())
}

/// The day on which the second `seconds` after the start of Unix time falls.
pub open spec fn day_of_second(seconds: i64) -> int {
    (seconds as int) / 86_400 + UNIX_EPOCH_DAY
}

/// Calls `chrono::DateTime::from_timestamp` with no nanoseconds and takes the
/// day number of its date. Claimed: it gives a date exactly where the day is
/// one that a date can have, and then the day on which that second falls.
#[verifier::external_body]
pub(crate) fn day_of_timestamp(seconds: i64) -> (res: Option<i32>)
    ensures
        res == (if is_day(day_of_second(seconds)) {
            Some(day_of_second(seconds) as i32)
        } else {
            None
        }),
{
    chrono::DateTime::from_timestamp(seconds, 0).map(
        |moment| chrono::Datelike::num_days_from_ce(&moment.date_naive()),
    )
}

/// The name of what reading a text as a date gives: its day, or the reason
/// why it is none.
pub uninterp spec fn date_parse(text: Seq<char>) -> Result<int, Seq<char>>;

/// Calls `chrono::NaiveDate::parse_from_str` with the format `%Y-%m-%d` and
/// takes the day number of the date, or the text of the error. Claimed: the
/// result depends on the text alone, a date is one of the days of [`is_day`],
/// and the ISO 8601 notation of a date with a four-digit year reads back as
/// that date. Which other texts are dates is left to the name.
#[verifier::external_body]
pub(crate) fn parse_date(text: &str) -> (res: Result<i32, String>)
    ensures
        match date_parse(text@) {
            Ok(day) => res is Ok && res->Ok_0 == day && is_day(day),
            Err(reason) => res is Err && res->Err_0@ == reason,
        },
        forall|day: int| #[trigger]
            has_plain_year(day) && text@ == date_text(day) ==> res is Ok && res->Ok_0 == day,
{
    match chrono::NaiveDate::parse_from_str(text, "%Y-%m-%d") {
        Ok(date) => Ok(chrono::Datelike::num_days_from_ce(&date)),
        Err(reason) => Err(reason.to_string()),
    }
}

} // verus!
