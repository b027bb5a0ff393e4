//! When something was, said the way a person would say it.
use vstd::prelude::*;
use vstd::std_specs::cmp::PartialEqSpec;

use crate::history::towards_zero;
use crate::number::{decimal, digit, push_signed, signed_decimal};
use crate::text::{joined, trim, trimmed};

verus! {

/// `i64::from(u8)` keeps the number.
pub assume_specification[ <i64 as core::convert::From<u8>>::from ](n: u8) -> (kept: i64)
    ensures
        kept == n,
;

/// The suffix that makes `word` into `words`, for any count but one.
pub fn plural<N: PartialEq + From<u8>>(n: N) -> (suffix: &'static str)
    ensures
        exists|one: N| #[trigger]
            call_ensures(N::from, (1u8,), one) && (N::obeys_eq_spec() ==> suffix@ == if n.eq_spec(
                &one,
            ) {
                ""@
            } else {
                "s"@
            }),
{
    let one = N::from(1);
    assert(call_ensures(N::from, (1u8,), one));
    if n == one {
        ""
    } else {
        "s"
    }
}

/// A moment, as a clock and a calendar on the wall would give it.
#[derive(Debug, Clone)]
pub struct Moment {
    /// Microseconds since the start of 1970, whatever the calendar says.
    pub micros: i64,
    pub year: i32,
    pub month: i32,
    pub day: i32,
    /// The hour and the minute, if they could be written out.
    pub time_of_day: Option<String>,
    /// The date, if it could be written out.
    pub date: Option<String>,
}

/// Whether a year has a day more than most.
pub open spec fn leap(year: int) -> bool {
    year % 4 == 0 && (year % 100 != 0 || year % 400 == 0)
}

/// How many days a year has.
pub open spec fn year_days(year: int) -> int {
    if leap(year) {
        366
    } else {
        365
    }
}

/// How many days a month has.
pub open spec fn month_days(year: int, month: int) -> int {
    if month == 2 {
        if leap(year) {
            29
        } else {
            28
        }
    } else if month == 4 || month == 6 || month == 9 || month == 11 {
        30
    } else {
        31
    }
}

/// How many days there were before a year, counting from the first.
pub open spec fn days_before_year(year: int) -> int
    decreases year,
{
    if year <= 1 {
        0
    } else {
        days_before_year(year - 1) + year_days(year - 1)
    }
}

/// How many days of a year there are before a month of it.
pub open spec fn days_before_month(year: int, month: int) -> int
    decreases month,
{
    if month <= 1 {
        0
    } else {
        days_before_month(year, month - 1) + month_days(year, month - 1)
    }
}

/// Which day a date is, counting from the first there was.
pub open spec fn day_number(year: int, month: int, day: int) -> int {
    days_before_year(year) + days_before_month(year, month) + day
}

/// Whether a date is one there is.
pub open spec fn is_date(year: int, month: int, day: int) -> bool {
    &&& 1 <= year <= 9999
    &&& 1 <= month <= 12
    &&& 1 <= day <= month_days(year, month)
}

/// The date after a date.
pub open spec fn next_date(year: int, month: int, day: int) -> (int, int, int) {
    if day < month_days(year, month) {
        (year, month, day + 1)
    } else if month < 12 {
        (year, month + 1, 1)
    } else {
        (year + 1, 1, 1)
    }
}

proof fn months_make_a_year(year: int)
    ensures
        days_before_month(year, 13) == year_days(year),
{
    reveal_with_fuel(days_before_month, 13);
}

/// One day on is one more: over the end of a month, of a February and of a year
/// too.
pub proof fn the_next_date_is_one_day_on(year: int, month: int, day: int)
    requires
        is_date(year, month, day),
    ensures
        ({
            let next = next_date(year, month, day);
            day_number(next.0, next.1, next.2) == day_number(year, month, day) + 1
        }),
{
    months_make_a_year(year);
}

/// A later day of the same month is as many days on.
pub proof fn days_of_a_month_count_up(year: int, month: int, day: int, days: int)
    ensures
        day_number(year, month, day + days) == day_number(year, month, day) + days,
{
}

proof fn years_by_division(year: int)
    requires
        1 <= year,
    ensures
        days_before_year(year) == 365 * (year - 1) + (year - 1) / 4 - (year - 1) / 100 + (year - 1)
            / 400,
    decreases year,
{
    if year > 1 {
        years_by_division(year - 1);
    }
}

impl Moment {
    /// Whether the calendar gives a date there is, and the clock is not further
    /// out than any such date.
    pub open spec fn valid(self) -> bool {
        &&& is_date(self.year as int, self.month as int, self.day as int)
        &&& -1_000_000_000_000_000_000 < self.micros < 1_000_000_000_000_000_000
    }

    /// Which day it is, counting from the first there was.
    pub open spec fn day_count(self) -> int {
        day_number(self.year as int, self.month as int, self.day as int)
    }
}

fn is_leap(year: i64) -> (yes: bool)
    requires
        1 <= year <= 9999,
    ensures
        yes == leap(year as int),
{
    year % 4 == 0 && (year % 100 != 0 || year % 400 == 0)
}

fn days_in(year: i64, month: i64) -> (days: i64)
    requires
        1 <= year <= 9999,
    ensures
        days == month_days(year as int, month as int),
{
    if month == 2 {
        if is_leap(year) {
            29
        } else {
            28
        }
    } else if month == 4 || month == 6 || month == 9 || month == 11 {
        30
    } else {
        31
    }
}

impl Moment {
    /// Whether the calendar gives a date there is, and the clock is not further out
    /// than any such date.
    pub fn is_valid(&self) -> (valid: bool)
        ensures
            valid == self.valid(),
    {
        let year: i64 = self.year as i64;
        let month: i64 = self.month as i64;
        if !(1 <= year && year <= 9999 && 1 <= month && month <= 12) {
            return false;
        }
        let day: i64 = self.day as i64;
        1 <= day && day <= days_in(year, month) && -1_000_000_000_000_000_000 < self.micros
            && self.micros < 1_000_000_000_000_000_000
    }
}

/// Which day a moment falls on, counting from the first there was.
pub fn count_days(moment: &Moment) -> (days: i64)
    requires
        moment.valid(),
    ensures
        days == moment.day_count(),
        0 < days < 4_000_000,
{
    let year: i64 = moment.year as i64;
    let month: i64 = moment.month as i64;
    let past: i64 = year - 1;
    let mut days: i64 = 365 * past + past / 4 - past / 100 + past / 400;
    proof {
        years_by_division(year as int);
    }
    let ghost start = days;
    let mut at: i64 = 1;
    while at < month
        invariant
            1 <= year <= 9999,
            1 <= at <= month <= 12,
            0 <= start < 3_660_000,
            days == start + days_before_month(year as int, at as int),
            days <= start + 31 * (at - 1),
            start <= days,
        decreases month - at,
    {
        days += days_in(year, at);
        at += 1;
    }
    days + moment.day as i64
}

/// Whole days between the two dates, ignoring the time of day.
pub fn calendar_days_between(then: &Moment, now: &Moment) -> (days: i64)
    requires
        then.valid(),
        now.valid(),
    ensures
        days == now.day_count() - then.day_count(),
{
    count_days(now) - count_days(then)
}

/// The word for some minutes or hours, and how many.
pub open spec fn ago(n: int, unit: Seq<char>) -> Seq<char> {
    signed_decimal(n) + unit + if n == 1 {
        ""@
    } else {
        "s"@
    } + " ago"@
}

/// A text there may not be, which is then empty.
pub open spec fn or_nothing(text: Option<String>) -> Seq<char> {
    match text {
        Some(text) => text@,
        None => ""@,
    }
}

/// When something was, said the way a person would say it.
pub open spec fn described(then: Moment, now: Moment) -> Seq<char> {
    let seconds = towards_zero(now.micros - then.micros, 1_000_000);
    // Calendar days, not elapsed 24-hour periods: 11pm yesterday to 9am today
    // is "Yesterday", however few hours that actually is.
    let days = now.day_count() - then.day_count();
    let minutes = towards_zero(seconds, 60);
    if days == 0 {
        if seconds < 45 {
            "just now"@
        } else if minutes < 60 {
            ago(
                if minutes < 1 {
                    1
                } else {
                    minutes
                },
                " minute"@,
            )
        } else {
            ago(minutes / 60, " hour"@)
        }
    } else if days == 1 {
        "Yesterday "@ + or_nothing(then.time_of_day)
    } else if days < 7 {
        signed_decimal(days) + " days ago"@
    } else {
        trimmed(or_nothing(then.date))
    }
}

fn say_ago(n: i64, unit: &str) -> (text: String)
    ensures
        text@ == ago(n as int, unit@),
{
    let mut text = String::new();
    push_signed(&mut text, n);
    text.append(unit);
    text.append(plural(n));
    text.append(" ago");
    assert(text@ =~= ago(n as int, unit@));
    text
}

/// When something was, said the way a person would say it.
pub fn describe(then: &Moment, now: &Moment) -> (text: String)
    requires
        then.valid(),
        now.valid(),
    ensures
        text@ == described(*then, *now),
{
    let seconds: i64 = (now.micros - then.micros) / 1_000_000;
    let days: i64 = calendar_days_between(then, now);
    if days == 0 {
        let minutes: i64 = seconds / 60;
        if seconds < 45 {
            "just now".to_owned()
        } else if minutes < 60 {
            let minutes: i64 = if minutes < 1 {
                1
            } else {
                minutes
            };
            say_ago(minutes, " minute")
        } else {
            say_ago(minutes / 60, " hour")
        }
    } else if days == 1 {
        match &then.time_of_day {
            Some(time) => joined("Yesterday ", time.as_str()),
            None => joined("Yesterday ", ""),
        }
    } else if days < 7 {
        let mut text = String::new();
        push_signed(&mut text, days);
        text.append(" days ago");
        assert(text@ =~= described(*then, *now));
        text
    } else {
        match &then.date {
            Some(date) => trim(date.as_str()).to_owned(),
            None => trim("").to_owned(),
        }
    }
}

/// As [`describe`], for a moment the calendar may not have: then there is nothing
/// to say. Restamping a whole list wants one clock reading, not one per row.
pub fn relative_time_at(then: Option<&Moment>, now: &Moment) -> (text: String)
    requires
        then matches Some(then) ==> then.valid(),
        now.valid(),
    ensures
        text@ == match then {
            Some(then) => described(*then, *now),
            None => ""@,
        },
{
    match then {
        Some(then) => describe(then, now),
        None => "".to_owned(),
    }
}

/// As [`relative_time_at`], where there may be no reading of the clock either.
pub fn relative_time(then: Option<&Moment>, now: Option<&Moment>) -> (text: String)
    requires
        then matches Some(then) ==> then.valid(),
        now matches Some(now) ==> now.valid(),
    ensures
        text@ == match (then, now) {
            (Some(then), Some(now)) => described(*then, *now),
            _ => ""@,
        },
{
    match now {
        Some(now) => relative_time_at(then, now),
        None => "".to_owned(),
    }
}

/// Something from the day before is from yesterday, however few hours ago it was.
pub proof fn the_day_before_is_yesterday(then: Moment, now: Moment)
    requires
        then.valid(),
        now.valid(),
        next_date(then.year as int, then.month as int, then.day as int) == (
            now.year as int,
            now.month as int,
            now.day as int,
        ),
    ensures
        described(then, now) == "Yesterday "@ + or_nothing(then.time_of_day),
{
    the_next_date_is_one_day_on(then.year as int, then.month as int, then.day as int);
}

// --- what is said, and when --------------------------------------------------

/// Whether this many whole seconds have gone by.
pub open spec fn gone_by(then: Moment, now: Moment, seconds: int) -> bool {
    seconds * 1_000_000 <= now.micros - then.micros < (seconds + 1) * 1_000_000
}

/// Whether two moments are on one date.
pub open spec fn same_date(then: Moment, now: Moment) -> bool {
    then.year == now.year && then.month == now.month && then.day == now.day
}

/// On one day, and an hour or more later, the hours that have gone by are counted,
/// whole ones, however many there are.
pub proof fn hours_are_counted(then: Moment, now: Moment, seconds: int, hours: int)
    requires
        same_date(then, now),
        gone_by(then, now, seconds),
        1 <= hours,
        hours * 3600 <= seconds < (hours + 1) * 3600,
    ensures
        hours == 1 ==> described(then, now) == "1"@ + " hour"@ + ""@ + " ago"@,
        hours > 1 ==> described(then, now) == decimal(hours as nat) + " hour"@ + "s"@ + " ago"@,
{
    assert(towards_zero(now.micros - then.micros, 1_000_000) == seconds);
    assert(towards_zero(seconds, 60) / 60 == hours);
    reveal_strlit("1");
    assert("1"@ =~= seq![digit(1)]);
    assert(decimal(1) == seq![digit(1)]);
}

/// On one day, and less than an hour later, the minutes that have gone by are
/// counted, whole ones, but never none.
pub proof fn minutes_are_counted(then: Moment, now: Moment, seconds: int, minutes: int)
    requires
        same_date(then, now),
        gone_by(then, now, seconds),
        45 <= seconds < 3600,
        minutes * 60 <= seconds < (minutes + 1) * 60,
    ensures
        minutes <= 1 ==> described(then, now) == "1"@ + " minute"@ + ""@ + " ago"@,
        minutes > 1 ==> described(then, now) == decimal(minutes as nat) + " minute"@ + "s"@
            + " ago"@,
{
    assert(towards_zero(now.micros - then.micros, 1_000_000) == seconds);
    assert(towards_zero(seconds, 60) == minutes);
    reveal_strlit("1");
    assert("1"@ =~= seq![digit(1)]);
    assert(decimal(1) == seq![digit(1)]);
}

/// On one day, and less than three quarters of a minute later, it is just now; so it
/// is if the clock has been set back.
pub proof fn just_now_is_just_now(then: Moment, now: Moment)
    requires
        same_date(then, now),
        now.micros - then.micros < 45_000_000,
    ensures
        described(then, now) == "just now"@,
{
}

/// The date some days after a date.
pub open spec fn days_on(date: (int, int, int), days: nat) -> (int, int, int)
    decreases days,
{
    if days == 0 {
        date
    } else {
        let before = days_on(date, (days - 1) as nat);
        next_date(before.0, before.1, before.2)
    }
}

proof fn each_next_date_is_a_date(year: int, month: int, day: int)
    requires
        1 <= year,
        1 <= month <= 12,
        1 <= day <= month_days(year, month),
    ensures
        ({
            let next = next_date(year, month, day);
            &&& 1 <= next.0
            &&& 1 <= next.1 <= 12
            &&& 1 <= next.2 <= month_days(next.0, next.1)
            &&& day_number(next.0, next.1, next.2) == day_number(year, month, day) + 1
        }),
{
    months_make_a_year(year);
}

proof fn days_on_count_up(date: (int, int, int), days: nat)
    requires
        is_date(date.0, date.1, date.2),
    ensures
        ({
            let on = days_on(date, days);
            &&& 1 <= on.0
            &&& 1 <= on.1 <= 12
            &&& 1 <= on.2 <= month_days(on.0, on.1)
            &&& day_number(on.0, on.1, on.2) == day_number(date.0, date.1, date.2) + days
        }),
    decreases days,
{
    if days > 0 {
        days_on_count_up(date, (days - 1) as nat);
        let before = days_on(date, (days - 1) as nat);
        each_next_date_is_a_date(before.0, before.1, before.2);
    }
}

/// From the day before yesterday back to six days ago, the days are counted by the
/// calendar; from a week ago on, the date is given, without the space before it.
pub proof fn days_are_counted_by_the_calendar(then: Moment, now: Moment, days: nat)
    requires
        then.valid(),
        days_on((then.year as int, then.month as int, then.day as int), days) == (
            now.year as int,
            now.month as int,
            now.day as int,
        ),
    ensures
        days == 1 ==> described(then, now) == "Yesterday "@ + or_nothing(then.time_of_day),
        2 <= days < 7 ==> described(then, now) == decimal(days) + " days ago"@,
        days >= 7 ==> described(then, now) == trimmed(or_nothing(then.date)),
{
    days_on_count_up((then.year as int, then.month as int, then.day as int), days);
}

/// The calendar is the one on the wall: every fourth year has a day more, but for
/// three centuries of four, and a month has as many days as it always has.
pub proof fn the_calendar_is_the_one_on_the_wall(year: int, month: int)
    ensures
        year % 4 != 0 ==> !leap(year),
        year % 4 == 0 && year % 100 != 0 ==> leap(year),
        leap(400 * year),
        !leap(400 * year + 100) && !leap(400 * year + 200) && !leap(400 * year + 300),
        month_days(year, 2) == if leap(year) {
            29int
        } else {
            28
        },
        month == 9 || month == 4 || month == 6 || month == 11 ==> month_days(year, month) == 30,
        month == 1 || month == 3 || month == 5 || month == 7 || month == 8 || month == 10 || month
            == 12 ==> month_days(year, month) == 31,
        days_before_month(year, 13) == if leap(year) {
            366int
        } else {
            365
        },
        day_number(1, 1, 1) == 1,
{
    months_make_a_year(year);
}

/// A moment on a later date than the clock shows, which takes a clock that was set back,
/// counts as days that have still to come.
pub proof fn days_to_come_are_counted_down(then: Moment, now: Moment, days: nat)
    requires
        now.valid(),
        days > 0,
        days_on((now.year as int, now.month as int, now.day as int), days) == (
            then.year as int,
            then.month as int,
            then.day as int,
        ),
    ensures
        described(then, now) == seq!['-'] + decimal(days) + " days ago"@,
{
    days_on_count_up((now.year as int, now.month as int, now.day as int), days);
}

/// What there may not be is shown as it is, or as nothing.
pub proof fn what_there_is_not_is_shown_as_nothing(text: String)
    ensures
        or_nothing(Some(text)) == text@,
        or_nothing(None).len() == 0,
{
    reveal_strlit("");
}

/// What is said of a moment earlier on one day, from an hour ago on: how many whole hours
/// ago it was.
pub proof fn hours_ago_are_said(
    then: Moment,
    now: Moment,
    text: String,
    seconds: int,
    hours: int,
)
    requires
        call_ensures(describe, (&then, &now), text),
        same_date(then, now),
        gone_by(then, now, seconds),
        1 <= hours,
        hours * 3600 <= seconds < (hours + 1) * 3600,
    ensures
        text@ == decimal(hours as nat) + " hour"@ + if hours == 1 {
            ""@
        } else {
            "s"@
        } + " ago"@,
{
    hours_are_counted(then, now, seconds, hours);
    reveal_strlit("1");
    assert("1"@ =~= seq![digit(1)]);
    assert(decimal(1) == seq![digit(1)]);
}

} // verus!
