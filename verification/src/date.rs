use chrono::Datelike;
use chrono::Offset;
use chrono::TimeZone;
use vstd::prelude::*;

use crate::text::{decimal_chars, digit_char, push_char, push_padded_decimal, zero_padded};

verus! {

/// A calendar date (proleptic Gregorian), as plain numbers.
#[derive(Clone, Copy, Debug, PartialEq, Eq, Structural)]
pub struct CalendarDate {
    pub year: i32,
    pub month: u32,
    pub day: u32,
}

/// The year as a date shows it: four digits for years 0 to 9999, otherwise
/// a sign and at least four digits.
pub open spec fn year_text(year: i32) -> Seq<char> {
    if 0 <= year <= 9999 {
        zero_padded(decimal_chars(year as nat), 4)
    } else if year < 0 {
        seq!['-'] + zero_padded(decimal_chars((-year) as nat), 4)
    } else {
        seq!['+'] + zero_padded(decimal_chars(year as nat), 4)
    }
}

/// `YYYY-MM-DD`, the way the date is shown in archive names, logs and reports.
pub open spec fn date_text(d: CalendarDate) -> Seq<char> {
    year_text(d.year) + seq!['-'] + zero_padded(decimal_chars(d.month as nat), 2) + seq!['-']
        + zero_padded(decimal_chars(d.day as nat), 2)
}

impl CalendarDate {
    /// Appends the text of the date (see `date_text`) to `s`.
    pub fn push_text(&self, s: &mut String)
        ensures
            final(s)@ == old(s)@ + date_text(*self),
    {
        let y = self.year;
        if 0 <= y && y <= 9999 {
            push_padded_decimal(s, y as u64, 4);
        } else if y < 0 {
            push_char(s, '-');
            let magnitude: i64 = -(y as i64);
            push_padded_decimal(s, magnitude as u64, 4);
        } else {
            push_char(s, '+');
            push_padded_decimal(s, y as u64, 4);
        }
        push_char(s, '-');
        push_padded_decimal(s, self.month as u64, 2);
        push_char(s, '-');
        push_padded_decimal(s, self.day as u64, 2);
        assert(s@ =~= old(s)@ + date_text(*self));
    }

    /// The text of the date (see `date_text`), such as `2026-09-06`.
    pub fn to_text(&self) -> (s: String)
        ensures
            s@ == date_text(*self),
    {
        let mut s = String::new();
        self.push_text(&mut s);
        assert(s@ =~= date_text(*self));
        s
    }
}

/// A leap year of the proleptic Gregorian calendar.
pub open spec fn is_leap_year(year: int) -> bool {
    year % 4 == 0 && (year % 100 != 0 || year % 400 == 0)
}

/// The number of days in a month (1 to 12) of a year.
pub open spec fn days_in_month(year: int, month: int) -> int {
    if month == 2 {
        if is_leap_year(year) {
            29
        } else {
            28
        }
    } else if month == 4 || month == 6 || month == 9 || month == 11 {
        30
    } else {
        31
    }
}

/// The first year chrono's dates reach.
pub open spec fn first_year() -> int {
    -262143
}

/// The last year chrono's dates reach.
pub open spec fn last_year() -> int {
    262142
}

/// A real calendar date within the years chrono's dates reach.
pub open spec fn date_valid(d: CalendarDate) -> bool {
    &&& first_year() <= d.year <= last_year()
    &&& 1 <= d.month <= 12
    &&& 1 <= d.day <= days_in_month(d.year as int, d.month as int)
}

/// The number of days from 1970-01-01 to the date (negative before it).
pub open spec fn day_number(d: CalendarDate) -> int {
    let y = if d.month <= 2 {
        d.year - 1
    } else {
        d.year as int
    };
    let era = y / 400;
    let year_of_era = y - era * 400;
    let shifted_month = (d.month + 9) % 12;
    let day_of_year = (153 * shifted_month + 2) / 5 + d.day - 1;
    let day_of_era = year_of_era * 365 + year_of_era / 4 - year_of_era / 100 + day_of_year;
    era * 146097 + day_of_era - 719468
}

/// The day number of the first date chrono reaches.
pub open spec fn first_day_number() -> int {
    day_number(CalendarDate { year: -262143i32, month: 1u32, day: 1u32 })
}

/// The day number of the last date chrono reaches.
pub open spec fn last_day_number() -> int {
    day_number(CalendarDate { year: 262142i32, month: 12u32, day: 31u32 })
}

/// The day number of the UTC date of a Unix timestamp.
pub open spec fn utc_day_number(timestamp: i64) -> int {
    timestamp / 86400
}

/// The day number of the instant `timestamp` seen `offset` seconds east of UTC.
pub open spec fn shifted_day(timestamp: int, offset: int) -> int {
    (timestamp + offset) / 86400
}

/// The local date of a timestamp, as `local_date_of_timestamp` gives it: a
/// real date, the date of the instant moved by some offset of less than a
/// day (so within one day of the UTC date), and there is one whenever the UTC
/// date is at least one day inside chrono's range.
pub open spec fn local_date_fits(timestamp: i64, date: Option<CalendarDate>) -> bool {
    &&& date matches Some(d) ==> date_valid(d) && utc_day_number(timestamp) - 1 <= day_number(d)
        <= utc_day_number(timestamp) + 1
    &&& date matches Some(d) ==> exists|offset: int|
        #![trigger shifted_day(timestamp as int, offset)]
        -86400 < offset < 86400 && day_number(d) == shifted_day(timestamp as int, offset)
    &&& first_day_number() < utc_day_number(timestamp) < last_day_number() ==> date is Some
}

/// The local calendar date of a Unix timestamp:
/// `chrono::Local.timestamp_opt(timestamp, 0).single()`, then the UTC date
/// and time moved by the local offset with `NaiveDateTime::checked_add_offset`.
/// `timestamp_opt` gives a single result exactly when the UTC date lies in
/// chrono's range, and `FixedOffset`s are under one day, so the local date is
/// the date of `timestamp` plus an offset under a day: the UTC date, the day
/// before or the day after. The offset itself depends on the machine's time
/// zone and is not stated. chrono itself stops with a panic
/// only when the machine's time zone data cannot give an offset, which no
/// argument causes.
#[verifier::external_body]
pub fn local_date_of_timestamp(timestamp: i64) -> (r: Option<CalendarDate>)
    ensures
        local_date_fits(timestamp, r),
{
    let date_time = chrono::Local.timestamp_opt(timestamp, 0).single()?;
    let local = date_time.naive_utc().checked_add_offset(date_time.offset().fix())?;
    let date = local.date();
    Some(CalendarDate { year: date.year(), month: date.month(), day: date.day() })
}

/// The date `days` days before `date`: `chrono::NaiveDate::checked_sub_days`,
/// with the date first built by `NaiveDate::from_ymd_opt`. An invalid date
/// gives `None`; otherwise the result is the date with `days` fewer day
/// numbers, when chrono's range still holds it, and `None` when it does not.
#[verifier::external_body]
fn days_before(date: CalendarDate, days: u32) -> (r: Option<CalendarDate>)
    ensures
        !date_valid(date) ==> r is None,
        date_valid(date) && day_number(date) - days >= first_day_number() ==> (r is Some
            && date_valid(r->0) && day_number(r->0) == day_number(date) - days),
        date_valid(date) && day_number(date) - days < first_day_number() ==> r is None,
        date_valid(date) && days == 0 ==> r == Some(date),
{
    let start = chrono::NaiveDate::from_ymd_opt(date.year, date.month, date.day)?;
    let shifted = start.checked_sub_days(chrono::Days::new(u64::from(days)))?;
    Some(CalendarDate { year: shifted.year(), month: shifted.month(), day: shifted.day() })
}

/// Which date an export covers: a number of days before today, or a given date.
#[derive(Clone, Copy, Debug)]
pub enum DateSelector {
    DaysAgo(u32),
    Date(CalendarDate),
}

/// The message for a `--days-ago` that leaves the supported date range.
pub open spec fn days_ago_range_message() -> Seq<char> {
    "days-ago is outside the supported date range"@
}

/// The date an export covers: `DaysAgo(n)` is the date `n` days before
/// `today` (today itself for 0), an error when chrono's range does not hold
/// it; `Date(d)` is `d`.
pub fn export_target_date(selector: DateSelector, today: CalendarDate) -> (r: Result<
    CalendarDate,
    String,
>)
    ensures
        selector matches DateSelector::Date(d) ==> r == Ok::<CalendarDate, String>(d),
        selector matches DateSelector::DaysAgo(n) ==> {
            &&& !date_valid(today) ==> (r matches Err(e) && e@ == days_ago_range_message())
            &&& date_valid(today) && day_number(today) - n >= first_day_number() ==> (r matches Ok(
                d,
            ) && date_valid(d) && day_number(d) == day_number(today) - n)
            &&& date_valid(today) && day_number(today) - n < first_day_number() ==> (r matches Err(
                e,
            ) && e@ == days_ago_range_message())
            &&& date_valid(today) && n == 0 ==> r == Ok::<CalendarDate, String>(today)
        },
{
    match selector {
        DateSelector::Date(d) => Ok(d),
        DateSelector::DaysAgo(n) => match days_before(today, n) {
            Some(d) => Ok(d),
            None => Err(String::from_str("days-ago is outside the supported date range")),
        },
    }
}

/// The text a backup name starts with: the date, `_`, then hour, minute and
/// second, two digits each, joined by `-` (`%Y-%m-%d_%H-%M-%S`).
pub open spec fn backup_timestamp_text(date: CalendarDate, hour: u32, minute: u32, second: u32) -> Seq<
    char,
> {
    date_text(date) + seq!['_'] + zero_padded(decimal_chars(hour as nat), 2) + seq!['-']
        + zero_padded(decimal_chars(minute as nat), 2) + seq!['-'] + zero_padded(
        decimal_chars(second as nat),
        2,
    )
}

/// The timestamp of a backup name (see `backup_timestamp_text`), such as
/// `2026-09-06_00-00-00`.
pub fn backup_timestamp(date: &CalendarDate, hour: u32, minute: u32, second: u32) -> (s: String)
    ensures
        s@ == backup_timestamp_text(*date, hour, minute, second),
{
    let mut s = String::new();
    date.push_text(&mut s);
    push_char(&mut s, '_');
    push_padded_decimal(&mut s, hour as u64, 2);
    push_char(&mut s, '-');
    push_padded_decimal(&mut s, minute as u64, 2);
    push_char(&mut s, '-');
    push_padded_decimal(&mut s, second as u64, 2);
    assert(s@ =~= backup_timestamp_text(*date, hour, minute, second));
    s
}

/// What `chrono::NaiveDate::parse_from_str(text, "%Y-%m-%d")` gives, as
/// (year, month, day); `None` when it fails.
pub uninterp spec fn parsed_ymd_of(text: Seq<char>) -> Option<(i32, u32, u32)>;

/// `chrono::NaiveDate::parse_from_str(value, "%Y-%m-%d")`, as (year, month,
/// day). Besides naming its result, the contract states that a date it gives
/// is a real date in chrono's range, as every `NaiveDate` is.
#[verifier::external_body]
fn parse_ymd(value: &str) -> (r: Option<(i32, u32, u32)>)
    ensures
        r == parsed_ymd_of(value@),
        r matches Some(ymd) ==> date_valid(CalendarDate { year: ymd.0, month: ymd.1, day: ymd.2 }),
{
    match chrono::NaiveDate::parse_from_str(value, "%Y-%m-%d") {
        Ok(date) => Some((date.year(), date.month(), date.day())),
        Err(_) => None,
    }
}

/// The message for a date argument that is not `YYYY-MM-DD`.
pub open spec fn date_format_message() -> Seq<char> {
    "date must use YYYY-MM-DD format"@
}

/// The date that a parse gave, or the format error when it gave none.
pub fn date_from_parsed(parsed: Option<(i32, u32, u32)>) -> (r: Result<CalendarDate, String>)
    ensures
        parsed matches Some(ymd) ==> r == Ok::<CalendarDate, String>(
            CalendarDate { year: ymd.0, month: ymd.1, day: ymd.2 },
        ),
        parsed is None ==> (r matches Err(e) && e@ == date_format_message()),
{
    match parsed {
        Some((year, month, day)) => Ok(CalendarDate { year, month, day }),
        None => Err(String::from_str("date must use YYYY-MM-DD format")),
    }
}

/// Parses a `--date` argument in `YYYY-MM-DD` form.
pub fn parse_date(value: &str) -> (r: Result<CalendarDate, String>)
    ensures
        parsed_ymd_of(value@) matches Some(ymd) ==> r == Ok::<CalendarDate, String>(
            CalendarDate { year: ymd.0, month: ymd.1, day: ymd.2 },
        ),
        parsed_ymd_of(value@) is None ==> (r matches Err(e) && e@ == date_format_message()),
        r matches Ok(d) ==> date_valid(d),
{
    date_from_parsed(parse_ymd(value))
}

/// A decimal digit character.
pub open spec fn is_digit_char(c: char) -> bool {
    '0' <= c <= '9'
}

/// The value of a decimal digit character.
pub open spec fn digit_value(c: char) -> int {
    (c as u32) - 48
}

/// The number written by the digit characters `s[at..at + width]`.
pub open spec fn digits_read(s: Seq<char>, at: int, width: nat) -> int
    decreases width,
{
    if width == 0 {
        0
    } else {
        digits_read(s, at, (width - 1) as nat) * 10 + digit_value(s[at + width - 1])
    }
}

proof fn lemma_digit_char(d: nat)
    requires
        d < 10,
    ensures
        is_digit_char(digit_char(d)),
        digit_value(digit_char(d)) == d,
{
    assert(digit_char(d) as u32 == 48 + d);
}

/// A number below 100, two digits wide: two digit characters reading back as it.
proof fn lemma_two_digits(n: nat)
    requires
        n < 100,
    ensures
        zero_padded(decimal_chars(n), 2).len() == 2,
        is_digit_char(zero_padded(decimal_chars(n), 2)[0]),
        is_digit_char(zero_padded(decimal_chars(n), 2)[1]),
        digits_read(zero_padded(decimal_chars(n), 2), 0, 2) == n,
{
    let p = zero_padded(decimal_chars(n), 2);
    if n < 10 {
        lemma_digit_char(n);
        assert(p =~= seq!['0', digit_char(n)]);
        assert(digit_value('0') == 0);
    } else {
        lemma_digit_char(n / 10);
        lemma_digit_char(n % 10);
        assert(decimal_chars(n / 10) == seq![digit_char(n / 10)]);
        assert(p =~= seq![digit_char(n / 10), digit_char(n % 10)]);
    }
    reveal_with_fuel(digits_read, 3);
}

/// A number below 10000, four digits wide: four digit characters reading back as it.
proof fn lemma_four_digits(n: nat)
    requires
        n < 10000,
    ensures
        zero_padded(decimal_chars(n), 4).len() == 4,
        forall|i: int| 0 <= i < 4 ==> is_digit_char(#[trigger] zero_padded(decimal_chars(n), 4)[i]),
        digits_read(zero_padded(decimal_chars(n), 4), 0, 4) == n,
{
    let p = zero_padded(decimal_chars(n), 4);
    lemma_digit_char(n % 10);
    lemma_digit_char((n / 10) % 10);
    lemma_digit_char((n / 100) % 10);
    lemma_digit_char(n / 1000);
    assert(digit_value('0') == 0);
    assert(is_digit_char('0'));
    if n < 10 {
        assert(p =~= seq!['0', '0', '0', digit_char(n)]);
    } else if n < 100 {
        assert(n / 10 < 10);
        assert(decimal_chars(n / 10) == seq![digit_char(n / 10)]);
        assert(decimal_chars(n) =~= seq![digit_char(n / 10), digit_char(n % 10)]);
        assert(p =~= seq!['0', '0', digit_char(n / 10), digit_char(n % 10)]);
    } else if n < 1000 {
        assert(n / 100 < 10 && (n / 10) / 10 == n / 100 && n / 10 >= 10);
        assert(decimal_chars(n / 100) == seq![digit_char(n / 100)]);
        assert(decimal_chars(n / 10) =~= seq![digit_char(n / 100), digit_char((n / 10) % 10)]);
        assert(decimal_chars(n) =~= seq![digit_char(n / 100), digit_char((n / 10) % 10), digit_char(n % 10)]);
        assert(p =~= seq!['0', digit_char(n / 100), digit_char((n / 10) % 10), digit_char(n % 10)]);
    } else {
        assert(n / 1000 < 10 && (n / 100) / 10 == n / 1000 && (n / 10) / 10 == n / 100);
        assert(n / 100 >= 10 && n / 10 >= 10);
        assert(decimal_chars(n / 1000) == seq![digit_char(n / 1000)]);
        assert(decimal_chars(n / 100) =~= seq![digit_char(n / 1000), digit_char((n / 100) % 10)]);
        assert(decimal_chars(n / 10) =~= seq![digit_char(n / 1000), digit_char((n / 100) % 10), digit_char((n / 10) % 10)]);
        assert(decimal_chars(n) =~= seq![
            digit_char(n / 1000),
            digit_char((n / 100) % 10),
            digit_char((n / 10) % 10),
            digit_char(n % 10),
        ]);
        assert(p =~= decimal_chars(n));
    }
    reveal_with_fuel(digits_read, 5);
}

/// A backup timestamp of a date in the years 0 to 9999 is the nineteen
/// characters `YYYY-MM-DD_HH-MM-SS`: separators in their places and digits
/// elsewhere, each field reading back as the year, month, day, hour, minute
/// and second it was made from (what chrono's `%Y-%m-%d_%H-%M-%S` writes).
pub proof fn lemma_backup_timestamp_fields(date: CalendarDate, hour: u32, minute: u32, second: u32)
    requires
        0 <= date.year <= 9999,
        1 <= date.month <= 12,
        1 <= date.day <= 31,
        hour < 24,
        minute < 60,
        second <= 60,
    ensures
        ({
            let s = backup_timestamp_text(date, hour, minute, second);
            &&& s.len() == 19
            &&& s[4] == '-' && s[7] == '-' && s[10] == '_' && s[13] == '-' && s[16] == '-'
            &&& forall|i: int|
                0 <= i < 19 && i != 4 && i != 7 && i != 10 && i != 13 && i != 16 ==> is_digit_char(
                    #[trigger] s[i],
                )
            &&& digits_read(s, 0, 4) == date.year
            &&& digits_read(s, 5, 2) == date.month
            &&& digits_read(s, 8, 2) == date.day
            &&& digits_read(s, 11, 2) == hour
            &&& digits_read(s, 14, 2) == minute
            &&& digits_read(s, 17, 2) == second
        }),
{
    let s = backup_timestamp_text(date, hour, minute, second);
    let y = zero_padded(decimal_chars(date.year as nat), 4);
    let mo = zero_padded(decimal_chars(date.month as nat), 2);
    let d = zero_padded(decimal_chars(date.day as nat), 2);
    let h = zero_padded(decimal_chars(hour as nat), 2);
    let mi = zero_padded(decimal_chars(minute as nat), 2);
    let se = zero_padded(decimal_chars(second as nat), 2);
    lemma_four_digits(date.year as nat);
    lemma_two_digits(date.month as nat);
    lemma_two_digits(date.day as nat);
    lemma_two_digits(hour as nat);
    lemma_two_digits(minute as nat);
    lemma_two_digits(second as nat);
    assert(s =~= seq![
        y[0], y[1], y[2], y[3], '-', mo[0], mo[1], '-', d[0], d[1], '_', h[0], h[1], '-', mi[0],
        mi[1], '-', se[0], se[1],
    ]);
    assert forall|i: int|
        0 <= i < 19 && i != 4 && i != 7 && i != 10 && i != 13 && i != 16 implies is_digit_char(
        #[trigger] s[i],
    ) by {
        assert(is_digit_char(y[0]) && is_digit_char(y[1]) && is_digit_char(y[2]) && is_digit_char(y[3]));
    }
    reveal_with_fuel(digits_read, 5);
    assert(digits_read(s, 0, 4) == digits_read(y, 0, 4));
    assert(digits_read(s, 5, 2) == digits_read(mo, 0, 2));
    assert(digits_read(s, 8, 2) == digits_read(d, 0, 2));
    assert(digits_read(s, 11, 2) == digits_read(h, 0, 2));
    assert(digits_read(s, 14, 2) == digits_read(mi, 0, 2));
    assert(digits_read(s, 17, 2) == digits_read(se, 0, 2));
}

} // verus!
