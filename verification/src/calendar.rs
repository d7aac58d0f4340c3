//! Dates of the proleptic Gregorian calendar, their texts, and the clock of
//! Brussels, in which the timetable is written.

use crate::text::{decimal_padding, padded, text_lt};
use chrono::{Datelike, TimeZone};
use vstd::prelude::*;

verus! {

/// The first year that a date can have.
pub const MIN_YEAR: i32 = -262_143;

/// The last year that a date can have.
pub const MAX_YEAR: i32 = 262_142;

/// The first second, counted from 1970-01-01T00:00:00, that has a date.
pub const MIN_SECS: i64 = -8_334_601_228_800;

/// The last second, counted from 1970-01-01T00:00:00, that has a date.
pub const MAX_SECS: i64 = 8_210_266_876_799;

/// How many seconds a day has.
pub const DAY_SECS: i64 = 86_400;

/// A date and a time of day, as a clock on the wall in Brussels shows them.
#[derive(Debug, Clone, Copy, PartialEq, Eq, Structural)]
pub struct LocalDateTime {
    pub year: i32,
    pub month: u32,
    pub day: u32,
    pub hour: u32,
    pub minute: u32,
    pub second: u32,
}

/// Whether a year has a 29th of February.
pub open spec fn is_leap(y: int) -> bool {
    y % 4 == 0 && (y % 100 != 0 || y % 400 == 0)
}

/// How many days month `m` of year `y` has.
pub open spec fn days_in_month(y: int, m: int) -> int {
    if m == 2 {
        if is_leap(y) {
            29
        } else {
            28
        }
    } else if m == 4 || m == 6 || m == 9 || m == 11 {
        30
    } else {
        31
    }
}

/// Whether there is a day `d` in month `m` of year `y`.
pub open spec fn is_date(y: int, m: int, d: int) -> bool {
    &&& MIN_YEAR <= y <= MAX_YEAR
    &&& 1 <= m <= 12
    &&& 1 <= d <= days_in_month(y, m)
}

/// How many days of year `y` come before month `m`.
pub open spec fn days_before_month(y: int, m: int) -> int
    decreases m,
{
    if m <= 1 {
        0
    } else {
        days_before_month(y, m - 1) + days_in_month(y, m - 1)
    }
}

/// How many days come before year `y`, counted from the start of year 1.
pub open spec fn days_before_year(y: int) -> int {
    365 * (y - 1) + (y - 1) / 4 - (y - 1) / 100 + (y - 1) / 400
}

/// The number of a day, counted from 1970-01-01.
pub open spec fn day_number(y: int, m: int, d: int) -> int {
    days_before_year(y) + days_before_month(y, m) + d - 719_163
}

/// The day of the week, from 0 for Monday to 6 for Sunday. 1970-01-01 was a
/// Thursday.
pub open spec fn weekday(y: int, m: int, d: int) -> int {
    (day_number(y, m, d) + 3) % 7
}

impl LocalDateTime {
    /// Whether the date and the time of day exist.
    pub open spec fn wf(self) -> bool {
        &&& is_date(self.year as int, self.month as int, self.day as int)
        &&& self.hour < 24
        &&& self.minute < 60
        &&& self.second < 60
    }

    /// The number of the day, counted from 1970-01-01.
    pub open spec fn day_no(self) -> int {
        day_number(self.year as int, self.month as int, self.day as int)
    }

    /// How many seconds of the day have passed.
    pub open spec fn secs_of_day(self) -> int {
        self.hour * 3600 + self.minute * 60 + self.second
    }
}

/// A year as a date text has it: four digits at least, with a sign where four
/// do not do.
pub open spec fn year_text(y: int) -> Seq<char> {
    if 0 <= y <= 9999 {
        padded(y as nat, 4)
    } else if y < 0 {
        seq!['-'] + decimal_padding((-y) as nat, 4)
    } else {
        seq!['+'] + decimal_padding(y as nat, 4)
    }
}

/// A date as year, month and day without anything between: `20260923`.
pub open spec fn compact_date(y: int, m: int, d: int) -> Seq<char> {
    year_text(y) + padded(m as nat, 2) + padded(d as nat, 2)
}

/// A date as year, month and day with hyphens between: `2026-09-23`.
pub open spec fn dashed_date(y: int, m: int, d: int) -> Seq<char> {
    year_text(y) + seq!['-'] + padded(m as nat, 2) + seq!['-'] + padded(d as nat, 2)
}

/// What `chrono` reads as a date of the form `%Y%m%d`: year, month and day, or
/// the message with which it refuses the text.
pub uninterp spec fn parsed_date(text: Seq<char>) -> Result<(int, int, int), Seq<char>>;

/// What a Brussels clock shows at an instant, both in seconds from
/// 1970-01-01T00:00:00, the instant in UTC.
pub uninterp spec fn brussels_clock(utc_secs: int) -> int;

/// The first instant at which a Brussels clock shows a time, if it ever does,
/// both in seconds from 1970-01-01T00:00:00, the instant in UTC.
pub uninterp spec fn brussels_earliest(local_secs: int) -> Option<int>;

/// A date in integers, or a message.
pub open spec fn date_ints(date: Result<(i32, u32, u32), String>) -> Result<
    (int, int, int),
    Seq<char>,
> {
    match date {
        Ok(t) => Ok((t.0 as int, t.1 as int, t.2 as int)),
        Err(message) => Err(message@),
    }
}

/// A number of seconds, if any, as an integer.
pub open spec fn secs_int(secs: Option<i64>) -> Option<int> {
    match secs {
        Some(t) => Some(t as int),
        None => None,
    }
}

/// Reads a date of the form `%Y%m%d`.
///
/// Calls `chrono::NaiveDate::parse_from_str`. Its result depends on the text
/// alone, and so does the message of a failure, which is how `chrono` shows its
/// error. What is read is a date that exists; every date from year 0 to year
/// 9999 that is written with four, two and two digits is read back.
#[verifier::external_body]
pub(crate) fn parse_date(text: &str) -> (r: Result<(i32, u32, u32), String>)
    ensures
        date_ints(r) == parsed_date(text@),
        r matches Ok(t) ==> is_date(t.0 as int, t.1 as int, t.2 as int),
        forall|y: int, m: int, d: int|
            is_date(y, m, d) && 0 <= y <= 9999 && text@ == #[trigger] compact_date(y, m, d)
                ==> date_ints(r) is Ok && date_ints(r)->Ok_0 == (y, m, d),
{
    let date = chrono::NaiveDate::parse_from_str(text, "%Y%m%d").map_err(|e| e.to_string());
    date.map(|d| (d.year(), d.month(), d.day()))
}

/// The day of the week of a date, from 0 for Monday.
///
/// Calls `chrono::NaiveDate::weekday`, which follows the Gregorian calendar.
#[verifier::external_body]
pub(crate) fn weekday_of(year: i32, month: u32, day: u32) -> (r: u32)
    requires
        is_date(year as int, month as int, day as int),
    ensures
        r == weekday(year as int, month as int, day as int),
{
    chrono::NaiveDate::from_ymd_opt(year, month, day).unwrap().weekday().num_days_from_monday()
}

/// A date in the text form that `pattern` asks for.
///
/// Calls `chrono::NaiveDate::format` with `%Y%m%d` or `%Y-%m-%d`: the year with
/// four digits at least and, beyond four, a sign, month and day with two.
#[verifier::external_body]
pub(crate) fn format_date(year: i32, month: u32, day: u32, pattern: &str) -> (r: String)
    requires
        is_date(year as int, month as int, day as int),
        pattern@ == "%Y%m%d"@ || pattern@ == "%Y-%m-%d"@,
    ensures
        pattern@ == "%Y%m%d"@ ==> r@ == compact_date(year as int, month as int, day as int),
        pattern@ == "%Y-%m-%d"@ ==> r@ == dashed_date(year as int, month as int, day as int),
{
    chrono::NaiveDate::from_ymd_opt(year, month, day).unwrap().format(pattern).to_string()
}

/// How many days a date lies after the last day before year 1.
///
/// Calls `chrono::Datelike::num_days_from_ce`, which counts 0001-01-01 as 1.
#[verifier::external_body]
pub(crate) fn days_from_ce(year: i32, month: u32, day: u32) -> (r: i32)
    requires
        is_date(year as int, month as int, day as int),
    ensures
        r == day_number(year as int, month as int, day as int) + 719_163,
{
    chrono::NaiveDate::from_ymd_opt(year, month, day).unwrap().num_days_from_ce()
}

/// The UTC date of an instant, in seconds from 1970-01-01T00:00:00.
///
/// Calls `chrono::DateTime::from_timestamp`, which knows the dates from the
/// start of `MIN_YEAR` to the end of `MAX_YEAR`.
#[verifier::external_body]
pub(crate) fn utc_date(secs: i64) -> (r: Option<(i32, u32, u32)>)
    ensures
        r is Some <==> MIN_SECS <= secs <= MAX_SECS,
        r matches Some(t) ==> is_date(t.0 as int, t.1 as int, t.2 as int),
        r matches Some(t) ==> day_number(t.0 as int, t.1 as int, t.2 as int) == secs as int
            / 86_400,
{
    let date = chrono::DateTime::from_timestamp(secs, 0).map(|t| t.date_naive());
    date.map(|d| (d.year(), d.month(), d.day()))
}

/// The instant at `ms` milliseconds from 1970-01-01T00:00:00 UTC, where it has
/// a date.
pub open spec fn instant_at(ms: i64) -> Option<i64> {
    if MIN_SECS * 1000 <= ms <= MAX_SECS * 1000 + 999 {
        Some(ms)
    } else {
        None
    }
}

/// The instant at `ms` milliseconds from 1970-01-01T00:00:00 UTC, where it has
/// a date.
pub fn instant_of_millis(ms: i64) -> (r: Option<i64>)
    ensures
        r == instant_at(ms),
{
    if MIN_SECS * 1000 <= ms && ms <= MAX_SECS * 1000 + 999 {
        Some(ms)
    } else {
        None
    }
}

/// What a Brussels clock shows at an instant.
///
/// Calls `chrono::DateTime::with_timezone` with `chrono_tz`'s Europe/Brussels.
/// The result depends on the instant alone; a clock is less than a day off UTC.
#[verifier::external_body]
pub(crate) fn clock_at(utc_secs: i64) -> (r: i64)
    requires
        MIN_SECS + DAY_SECS <= utc_secs <= MAX_SECS - DAY_SECS,
    ensures
        r == brussels_clock(utc_secs as int),
        -DAY_SECS < r - utc_secs < DAY_SECS,
{
    let at = chrono::DateTime::from_timestamp(utc_secs, 0).unwrap();
    at.with_timezone(&chrono_tz::Europe::Brussels).naive_local().and_utc().timestamp()
}

/// The first instant at which a Brussels clock shows a time.
///
/// Calls `chrono::TimeZone::from_local_datetime` with `chrono_tz`'s
/// Europe/Brussels, and takes the earliest reading. The result depends on the
/// time alone; at the instant found the clock does show the time.
#[verifier::external_body]
pub(crate) fn earliest_instant(local_secs: i64) -> (r: Option<i64>)
    requires
        MIN_SECS + DAY_SECS <= local_secs <= MAX_SECS - DAY_SECS,
    ensures
        secs_int(r) == brussels_earliest(local_secs as int),
        r matches Some(t) ==> -DAY_SECS < t - local_secs < DAY_SECS,
        r matches Some(t) ==> brussels_clock(t as int) == local_secs,
{
    let local = chrono::DateTime::from_timestamp(local_secs, 0).unwrap().naive_utc();
    let found = chrono_tz::Europe::Brussels.from_local_datetime(&local).earliest();
    found.map(|t| t.timestamp())
}

proof fn lemma_days_before_year_step(y: int)
    ensures
        days_before_year(y + 1) == days_before_year(y) + 365 + (if is_leap(y) {
            1int
        } else {
            0
        }),
{
    assert((y % 100 == 0) ==> (y % 4 == 0));
    assert((y % 400 == 0) ==> (y % 100 == 0));
    assert(y / 4 - (y - 1) / 4 == (if y % 4 == 0 {
        1int
    } else {
        0
    }));
    assert(y / 100 - (y - 1) / 100 == (if y % 100 == 0 {
        1int
    } else {
        0
    }));
    assert(y / 400 - (y - 1) / 400 == (if y % 400 == 0 {
        1int
    } else {
        0
    }));
}

proof fn lemma_days_before_year_grows(y: int, z: int)
    requires
        y < z,
    ensures
        days_before_year(z) >= days_before_year(y) + 365 + (if is_leap(y) {
            1int
        } else {
            0
        }),
    decreases z - y,
{
    if z == y + 1 {
        lemma_days_before_year_step(y);
    } else {
        lemma_days_before_year_grows(y, z - 1);
        lemma_days_before_year_step(z - 1);
    }
}

proof fn lemma_days_before_month_grows(y: int, m: int, n: int)
    requires
        1 <= m < n,
    ensures
        days_before_month(y, n) >= days_before_month(y, m) + days_in_month(y, m),
        days_before_month(y, m) >= 0,
    decreases n,
{
    if m > 1 {
        lemma_days_before_month_grows(y, m - 1, m);
    }
    if n > m + 1 {
        lemma_days_before_month_grows(y, m, n - 1);
    }
}

proof fn lemma_days_before_month_end(y: int, m: int)
    requires
        1 <= m <= 12,
    ensures
        0 <= days_before_month(y, m),
        days_before_month(y, m) + days_in_month(y, m) <= 365 + (if is_leap(y) {
            1int
        } else {
            0
        }),
{
    reveal_with_fuel(days_before_month, 14);
}

/// The days are numbered in the order of the calendar: a date with an earlier
/// year, or in the same year an earlier month, or in the same month an earlier
/// day, has a lower number.
pub proof fn day_numbers_follow_the_calendar(y: int, m: int, d: int, yy: int, mm: int, dd: int)
    requires
        is_date(y, m, d),
        is_date(yy, mm, dd),
    ensures
        day_number(y, m, d) < day_number(yy, mm, dd) <==> (y < yy || (y == yy && (m < mm || (m
            == mm && d < dd)))),
{
    lemma_days_before_month_end(y, m);
    lemma_days_before_month_end(yy, mm);
    if y < yy {
        lemma_days_before_year_grows(y, yy);
    } else if yy < y {
        lemma_days_before_year_grows(yy, y);
    } else if m < mm {
        lemma_days_before_month_grows(y, m, mm);
    } else if mm < m {
        lemma_days_before_month_grows(y, mm, m);
    }
}

proof fn lemma_padded_len(n: nat, width: nat)
    ensures
        padded(n, width).len() == width,
    decreases width,
{
    if width > 0 {
        lemma_padded_len(n / 10, (width - 1) as nat);
    }
}

proof fn lemma_text_lt_prefix(p: Seq<char>, q: Seq<char>, a: Seq<char>, b: Seq<char>)
    requires
        p.len() == q.len(),
    ensures
        p == q ==> text_lt(p + a, q + b) == text_lt(a, b),
        p != q ==> text_lt(p + a, q + b) == text_lt(p, q),
    decreases p.len(),
{
    if p.len() == 0 {
        assert(p =~= q);
        assert(p + a =~= a);
        assert(q + b =~= b);
    } else {
        assert((p + a)[0] == p[0]);
        assert((q + b)[0] == q[0]);
        assert((p + a).drop_first() =~= p.drop_first() + a);
        assert((q + b).drop_first() =~= q.drop_first() + b);
        lemma_text_lt_prefix(p.drop_first(), q.drop_first(), a, b);
        if p[0] == q[0] {
            assert(p =~= seq![p[0]] + p.drop_first());
            assert(q =~= seq![q[0]] + q.drop_first());
            if p != q {
                assert(p.drop_first() != q.drop_first());
            }
        }
    }
}

/// Ten to the power `width`.
pub open spec fn ten_to(width: nat) -> nat
    decreases width,
{
    if width == 0 {
        1
    } else {
        10 * ten_to((width - 1) as nat)
    }
}

proof fn lemma_digit_text_lt(a: nat, b: nat)
    requires
        a < 10,
        b < 10,
    ensures
        text_lt(seq![crate::text::digit_char(a)], seq![crate::text::digit_char(b)]) == (a < b),
        (crate::text::digit_char(a) == crate::text::digit_char(b)) == (a == b),
{
    let s = seq![crate::text::digit_char(a)];
    let t = seq![crate::text::digit_char(b)];
    assert(s[0] as int == 48 + a);
    assert(t[0] as int == 48 + b);
    assert(s.drop_first() =~= Seq::<char>::empty());
    assert(t.drop_first() =~= Seq::<char>::empty());
    assert(!text_lt(s.drop_first(), t.drop_first()));
}

proof fn lemma_padded_order(a: nat, b: nat, width: nat)
    requires
        a < ten_to(width),
        b < ten_to(width),
    ensures
        text_lt(padded(a, width), padded(b, width)) == (a < b),
        (padded(a, width) == padded(b, width)) == (a == b),
    decreases width,
{
    if width > 0 {
        let w = (width - 1) as nat;
        let p = padded(a / 10, w);
        let q = padded(b / 10, w);
        let x = seq![crate::text::digit_char(a % 10)];
        let y = seq![crate::text::digit_char(b % 10)];
        lemma_padded_order(a / 10, b / 10, w);
        lemma_padded_len(a / 10, w);
        lemma_padded_len(b / 10, w);
        lemma_digit_text_lt(a % 10, b % 10);
        lemma_text_lt_prefix(p, q, x, y);
        assert(padded(a, width) =~= p + x);
        assert(padded(b, width) =~= q + y);
        if padded(a, width) == padded(b, width) {
            assert(p =~= padded(a, width).drop_last());
            assert(q =~= padded(b, width).drop_last());
            assert(x[0] == padded(a, width).last());
            assert(y[0] == padded(b, width).last());
        }
    }
}

/// The texts `2026-09-23` sort as their days do, for years of four digits.
pub proof fn dashed_dates_sort_as_their_days(y: int, m: int, d: int, yy: int, mm: int, dd: int)
    requires
        is_date(y, m, d),
        is_date(yy, mm, dd),
        0 <= y <= 9999,
        0 <= yy <= 9999,
    ensures
        text_lt(dashed_date(y, m, d), dashed_date(yy, mm, dd)) <==> day_number(y, m, d)
            < day_number(yy, mm, dd),
        dashed_date(y, m, d).len() == 10,
{
    day_numbers_follow_the_calendar(y, m, d, yy, mm, dd);
    assert(ten_to(4) == 10000 && ten_to(2) == 100) by {
        reveal_with_fuel(ten_to, 5);
    }
    let dash = seq!['-'];
    let (a, b, c) = (padded(y as nat, 4), padded(m as nat, 2), padded(d as nat, 2));
    let (aa, bb, cc) = (padded(yy as nat, 4), padded(mm as nat, 2), padded(dd as nat, 2));
    lemma_padded_order(y as nat, yy as nat, 4);
    lemma_padded_order(m as nat, mm as nat, 2);
    lemma_padded_order(d as nat, dd as nat, 2);
    lemma_padded_len(y as nat, 4);
    lemma_padded_len(yy as nat, 4);
    lemma_padded_len(m as nat, 2);
    lemma_padded_len(mm as nat, 2);
    lemma_padded_len(d as nat, 2);
    lemma_padded_len(dd as nat, 2);
    let rest = dash + (b + (dash + c));
    let rrest = dash + (bb + (dash + cc));
    assert(dashed_date(y, m, d) =~= a + rest);
    assert(dashed_date(yy, mm, dd) =~= aa + rrest);
    lemma_text_lt_prefix(a, aa, rest, rrest);
    lemma_text_lt_prefix(dash, dash, b + (dash + c), bb + (dash + cc));
    lemma_text_lt_prefix(b, bb, dash + c, dash + cc);
    lemma_text_lt_prefix(dash, dash, c, cc);
}

/// The texts `20260923` sort as their days do, for years of four digits.
pub proof fn compact_dates_sort_as_their_days(y: int, m: int, d: int, yy: int, mm: int, dd: int)
    requires
        is_date(y, m, d),
        is_date(yy, mm, dd),
        0 <= y <= 9999,
        0 <= yy <= 9999,
    ensures
        text_lt(compact_date(y, m, d), compact_date(yy, mm, dd)) <==> day_number(y, m, d)
            < day_number(yy, mm, dd),
        compact_date(y, m, d).len() == 8,
{
    day_numbers_follow_the_calendar(y, m, d, yy, mm, dd);
    assert(ten_to(4) == 10000 && ten_to(2) == 100) by {
        reveal_with_fuel(ten_to, 5);
    }
    let (a, b, c) = (padded(y as nat, 4), padded(m as nat, 2), padded(d as nat, 2));
    let (aa, bb, cc) = (padded(yy as nat, 4), padded(mm as nat, 2), padded(dd as nat, 2));
    lemma_padded_order(y as nat, yy as nat, 4);
    lemma_padded_order(m as nat, mm as nat, 2);
    lemma_padded_order(d as nat, dd as nat, 2);
    lemma_padded_len(y as nat, 4);
    lemma_padded_len(yy as nat, 4);
    lemma_padded_len(m as nat, 2);
    lemma_padded_len(mm as nat, 2);
    lemma_padded_len(d as nat, 2);
    lemma_padded_len(dd as nat, 2);
    assert(compact_date(y, m, d) =~= a + (b + c));
    assert(compact_date(yy, mm, dd) =~= aa + (bb + cc));
    lemma_text_lt_prefix(a, aa, b + c, bb + cc);
    lemma_text_lt_prefix(b, bb, c, cc);
}

/// Each date has the number that follows that of the day before it, in the month,
/// from month to month and from year to year; 1970-01-01 has number 0.
pub proof fn days_are_numbered_one_by_one(y: int, m: int, d: int)
    requires
        is_date(y, m, d),
    ensures
        is_date(y, m, d + 1) ==> day_number(y, m, d + 1) == day_number(y, m, d) + 1,
        !is_date(y, m, d + 1) && m < 12 ==> is_date(y, m + 1, 1) && day_number(y, m + 1, 1)
            == day_number(y, m, d) + 1,
        !is_date(y, m, d + 1) && m == 12 ==> day_number(y + 1, 1, 1) == day_number(y, m, d) + 1,
        day_number(1970, 1, 1) == 0,
{
    assert(day_number(1970, 1, 1) == 0) by {
        reveal_with_fuel(days_before_month, 2);
    }
    if m == 12 {
        lemma_days_before_year_step(y);
        reveal_with_fuel(days_before_month, 14);
    }
}

/// The weekdays follow one another, seven of them: the day after a Monday (0) is
/// a Tuesday (1), and the day after a Sunday (6) a Monday. 1970-01-01 was a
/// Thursday (3).
pub proof fn weekdays_follow_one_another(y: int, m: int, d: int, yy: int, mm: int, dd: int)
    requires
        day_number(yy, mm, dd) == day_number(y, m, d) + 1,
    ensures
        0 <= weekday(y, m, d) <= 6,
        weekday(y, m, d) < 6 ==> weekday(yy, mm, dd) == weekday(y, m, d) + 1,
        weekday(y, m, d) == 6 ==> weekday(yy, mm, dd) == 0,
        weekday(1970, 1, 1) == 3,
{
    days_are_numbered_one_by_one(1970, 1, 1);
}

/// Every month has the days up to the 28th and none past the 31st; the others are
/// those of the Gregorian calendar.
pub proof fn months_have_their_days(y: int, m: int, d: int)
    requires
        MIN_YEAR <= y <= MAX_YEAR,
    ensures
        is_date(y, m, d) ==> 1 <= m <= 12 && 1 <= d <= 31,
        1 <= m <= 12 && 1 <= d <= 28 ==> is_date(y, m, d),
        is_date(y, 2, 29) <==> (y % 4 == 0 && y % 100 != 0) || y % 400 == 0,
        !is_date(y, 2, 30),
        1 <= m <= 12 && m != 2 ==> is_date(y, m, 29) && is_date(y, m, 30),
        is_date(y, m, 31) <==> m == 1 || m == 3 || m == 5 || m == 7 || m == 8 || m == 10 || m == 12,
{
    assert(y % 400 == 0 ==> y % 4 == 0);
}

proof fn lemma_padded_value(n: nat, width: nat)
    requires
        n < ten_to(width),
    ensures
        crate::text::all_digits(padded(n, width)),
        crate::text::digits_value(padded(n, width)) == n,
    decreases width,
{
    let s = padded(n, width);
    if width > 0 {
        let t = padded(n / 10, (width - 1) as nat);
        lemma_padded_value(n / 10, (width - 1) as nat);
        assert(s.drop_last() =~= t);
        assert(s.last() == crate::text::digit_char(n % 10));
        assert forall|i: int| 0 <= i < s.len() implies crate::text::is_digit(#[trigger] s[i]) by {
            if i < t.len() {
                assert(s[i] == t[i]);
            }
        }
    }
}

/// A date of a year with four digits is written with eight digits: those of the
/// year, of the month and of the day.
pub proof fn a_date_is_written_year_month_day(y: int, m: int, d: int)
    requires
        is_date(y, m, d),
        0 <= y <= 9999,
    ensures
        compact_date(y, m, d).len() == 8,
        crate::text::all_digits(compact_date(y, m, d)),
        crate::text::digits_value(compact_date(y, m, d).take(4)) == y,
        crate::text::digits_value(compact_date(y, m, d).subrange(4, 6)) == m,
        crate::text::digits_value(compact_date(y, m, d).subrange(6, 8)) == d,
        dashed_date(y, m, d).len() == 10,
        dashed_date(y, m, d).take(4) == compact_date(y, m, d).take(4),
        dashed_date(y, m, d).subrange(5, 7) == compact_date(y, m, d).subrange(4, 6),
        dashed_date(y, m, d).subrange(8, 10) == compact_date(y, m, d).subrange(6, 8),
        dashed_date(y, m, d)[4] == '-',
        dashed_date(y, m, d)[7] == '-',
{
    assert(ten_to(4) == 10000 && ten_to(2) == 100) by {
        reveal_with_fuel(ten_to, 5);
    }
    let (a, b, c) = (padded(y as nat, 4), padded(m as nat, 2), padded(d as nat, 2));
    lemma_padded_len(y as nat, 4);
    lemma_padded_len(m as nat, 2);
    lemma_padded_len(d as nat, 2);
    lemma_padded_value(y as nat, 4);
    lemma_padded_value(m as nat, 2);
    lemma_padded_value(d as nat, 2);
    let s = compact_date(y, m, d);
    let t = dashed_date(y, m, d);
    assert(s =~= a + b + c);
    assert(s.take(4) =~= a);
    assert(s.subrange(4, 6) =~= b);
    assert(s.subrange(6, 8) =~= c);
    assert(t.take(4) =~= a);
    assert(t.subrange(5, 7) =~= b);
    assert(t.subrange(8, 10) =~= c);
    assert forall|i: int| 0 <= i < s.len() implies crate::text::is_digit(#[trigger] s[i]) by {
        if i < 4 {
            assert(s[i] == a[i]);
        } else if i < 6 {
            assert(s[i] == b[i - 4]);
        } else {
            assert(s[i] == c[i - 6]);
        }
    }
}

} // verus!
