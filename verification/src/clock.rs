//! The clock of the built-in screen: reading it, and what it says in words.
use vstd::prelude::*;

use chrono::{Datelike, Timelike};

use crate::reading::clock_showed;

verus! {

/// A minute of the local calendar.
pub struct Moment {
    pub year: i32,
    pub month: u32,
    pub day: u32,
    pub hour: u32,
    pub minute: u32,
}

/// The year has a 29th of February.
pub open spec fn is_leap(year: int) -> bool {
    year % 4 == 0 && (year % 100 != 0 || year % 400 == 0)
}

/// How many days a month has.
pub open spec fn month_len(year: int, month: int) -> int {
    if month == 2 {
        if is_leap(year) {
            29
        } else {
            28
        }
    } else if month == 4 || month == 6 || month == 9 || month == 11 {
        30
    } else {
        31
    }
}

/// How many days of the year precede a month.
pub open spec fn days_before_month(year: int, month: int) -> int
    decreases month,
{
    if month <= 1 {
        0
    } else {
        days_before_month(year, month - 1) + month_len(year, month - 1)
    }
}

/// How many days precede a day, counted from Monday, the 1st of January of the year
/// one.
pub open spec fn days_before(year: int, month: int, day: int) -> int {
    let y = year - 1;
    365 * y + y / 4 - y / 100 + y / 400 + days_before_month(year, month) + day - 1
}

impl Moment {
    /// The day is in the calendar, in a year that the calendar reaches, and the
    /// minute is in the day.
    pub open spec fn wf(&self) -> bool {
        &&& -262143 <= self.year <= 262142
        &&& 1 <= self.month <= 12
        &&& 1 <= self.day <= month_len(self.year as int, self.month as int)
        &&& self.hour < 24
        &&& self.minute < 60
    }

    /// The day of the week, counted from Monday.
    pub open spec fn weekday(&self) -> int {
        days_before(self.year as int, self.month as int, self.day as int) % 7
    }

    /// The hour and the minute, each of two digits.
    pub open spec fn time_text(&self) -> Seq<char> {
        two_digits(self.hour as int) + seq![':'] + two_digits(self.minute as int)
    }

    /// The day of the week, the month and the day.
    pub open spec fn date_text(&self) -> Seq<char> {
        day_name(self.weekday()) + seq![',', ' '] + month_name(self.month as int) + seq![' ']
            + decimal(self.day as int)
    }
}

/// A digit as a character.
pub open spec fn digit(n: int) -> char {
    ('0' as int + n) as char
}

/// A number below 100 with two digits.
pub open spec fn two_digits(n: int) -> Seq<char> {
    seq![digit(n / 10), digit(n % 10)]
}

/// A number below 100 without a leading zero.
pub open spec fn decimal(n: int) -> Seq<char> {
    if n < 10 {
        seq![digit(n)]
    } else {
        two_digits(n)
    }
}

/// The name of a day of the week, counted from Monday.
pub open spec fn day_name(weekday: int) -> Seq<char> {
    if weekday == 0 {
        "Monday"@
    } else if weekday == 1 {
        "Tuesday"@
    } else if weekday == 2 {
        "Wednesday"@
    } else if weekday == 3 {
        "Thursday"@
    } else if weekday == 4 {
        "Friday"@
    } else if weekday == 5 {
        "Saturday"@
    } else {
        "Sunday"@
    }
}

/// The name of a month.
pub open spec fn month_name(month: int) -> Seq<char> {
    if month == 1 {
        "January"@
    } else if month == 2 {
        "February"@
    } else if month == 3 {
        "March"@
    } else if month == 4 {
        "April"@
    } else if month == 5 {
        "May"@
    } else if month == 6 {
        "June"@
    } else if month == 7 {
        "July"@
    } else if month == 8 {
        "August"@
    } else if month == 9 {
        "September"@
    } else if month == 10 {
        "October"@
    } else if month == 11 {
        "November"@
    } else {
        "December"@
    }
}

/// The hour and the minute, each of two digits, to `chrono`.
pub const TIME_PATTERN: &'static str = "%H:%M";

/// The day of the week, the month and the day, to `chrono`.
pub const DATE_PATTERN: &'static str = "%A, %B %-d";

/// `chrono::Local::now`, taken apart with `Datelike`, `Timelike` and
/// `DateTime::timestamp_subsec_millis`. Trusted: it is a minute of the calendar, and
/// fewer than 2000 milliseconds have passed since the last second began; only a leap
/// second lets 1000 pass. Which minute and how many depends on the time and on the
/// time zone; no more than that is claimed by calling them what the clock showed. The
/// clock of the system must not stand before the year 1970.
#[verifier::external_body]
pub(crate) fn local_now() -> (now: (Moment, u32))
    ensures
        now.0.wf(),
        now.1 < 2000,
        clock_showed(now.0, now.1),
{
    let now = chrono::Local::now();
    let moment = Moment {
        year: now.year(),
        month: now.month(),
        day: now.day(),
        hour: now.hour(),
        minute: now.minute(),
    };
    (moment, now.timestamp_subsec_millis())
}

/// `chrono::NaiveDateTime::format`, on the minute that `NaiveDate::from_ymd_opt` and
/// `NaiveDate::and_hms_opt` make. Trusted: they make one of every minute of the
/// calendar; `%H` and `%M` give the hour and the minute with two digits, `%A` and `%B`
/// the names of the day of the week and of the month in English, `%-d` the day
/// without a leading zero, and every other character gives itself.
#[verifier::external_body]
fn format_moment(moment: &Moment, pattern: &str) -> (text: String)
    requires
        moment.wf(),
        pattern@ == TIME_PATTERN@ || pattern@ == DATE_PATTERN@,
    ensures
        pattern@ == TIME_PATTERN@ ==> text@ == moment.time_text(),
        pattern@ == DATE_PATTERN@ ==> text@ == moment.date_text(),
{
    chrono::NaiveDate::from_ymd_opt(moment.year, moment.month, moment.day)
        .unwrap()
        .and_hms_opt(moment.hour, moment.minute, 0)
        .unwrap()
        .format(pattern)
        .to_string()
}

/// What the built-in screen says.
pub struct ClockText {
    pub time: String,
    pub date: String,
    /// The minute that it says.
    pub moment: Ghost<Moment>,
}

/// Puts a minute into words.
pub fn clock_text(moment: &Moment) -> (text: ClockText)
    requires
        moment.wf(),
    ensures
        text.time@ == moment.time_text(),
        text.date@ == moment.date_text(),
        text.moment@ == *moment,
{
    ClockText {
        time: format_moment(moment, TIME_PATTERN),
        date: format_moment(moment, DATE_PATTERN),
        moment: Ghost(*moment),
    }
}

/// Puts the present minute into words: the one that the clock of the system showed
/// when it was read.
pub fn read_clock() -> (text: ClockText)
    ensures
        exists|moment: Moment| #[trigger]
            moment.wf() && text.time@ == moment.time_text() && text.date@ == moment.date_text(),
        exists|subsec: u32| clock_showed(text.moment@, subsec),
        text.moment@.wf(),
        text.time@ == text.moment@.time_text(),
        text.date@ == text.moment@.date_text(),
{
    let (moment, _) = local_now();
    clock_text(&moment)
}

/// The day after a day, as a year, a month and a day.
pub open spec fn next_day(year: int, month: int, day: int) -> (int, int, int) {
    if day < month_len(year, month) {
        (year, month, day + 1)
    } else if month < 12 {
        (year, month + 1, 1)
    } else {
        (year + 1, 1, 1)
    }
}

/// The days before a year's end are those before its beginning and its own.
proof fn years_follow_one_another(year: int)
    ensures
        days_before(year + 1, 1, 1) == days_before(year, 12, 31) + 1,
{
    let k = year - 1;
    assert(days_before_month(year, 12) + 31 == if is_leap(year) {
        366int
    } else {
        365int
    }) by {
        reveal_with_fuel(days_before_month, 12);
    }
    assert(year / 4 - k / 4 == if year % 4 == 0 {
        1int
    } else {
        0int
    });
    assert(year / 100 - k / 100 == if year % 100 == 0 {
        1int
    } else {
        0int
    });
    assert(year / 400 - k / 400 == if year % 400 == 0 {
        1int
    } else {
        0int
    });
    assert(year % 400 == 0 ==> year % 100 == 0);
    assert(year % 100 == 0 ==> year % 4 == 0);
}

/// One day more precedes the next day than precedes a day.
proof fn days_follow_one_another(year: int, month: int, day: int)
    requires
        1 <= month <= 12,
        1 <= day <= month_len(year, month),
    ensures
        ({
            let (y, m, d) = next_day(year, month, day);
            days_before(y, m, d) == days_before(year, month, day) + 1
        }),
{
    if day == month_len(year, month) && month == 12 {
        years_follow_one_another(year);
    }
}

/// The days of the week follow one another without a gap, from Monday, the 1st of
/// January 2024, onwards and backwards: the day after any day is the next of the week.
pub proof fn weekdays_follow_one_another(moment: Moment, next: Moment, known: Moment)
    requires
        moment.wf(),
        next_day(moment.year as int, moment.month as int, moment.day as int) == (
            next.year as int,
            next.month as int,
            next.day as int,
        ),
        known.year == 2024,
        known.month == 1,
        known.day == 1,
    ensures
        next.weekday() == (moment.weekday() + 1) % 7,
        known.weekday() == 0,
        0 <= moment.weekday() < 7,
{
    days_follow_one_another(moment.year as int, moment.month as int, moment.day as int);
}

/// A month has 31 days, or 30, or as February 28, and 29 in every fourth year but in
/// three of four that begin a century.
pub proof fn months_have_their_lengths(year: int)
    ensures
        forall|m: int|
            m == 1 || m == 3 || m == 5 || m == 7 || m == 8 || m == 10 || m == 12
                ==> #[trigger] month_len(year, m) == 31,
        forall|m: int|
            m == 4 || m == 6 || m == 9 || m == 11 ==> #[trigger] month_len(year, m) == 30,
        year % 400 == 0 ==> month_len(year, 2) == 29,
        year % 100 == 0 && year % 400 != 0 ==> month_len(year, 2) == 28,
        year % 4 == 0 && year % 100 != 0 ==> month_len(year, 2) == 29,
        year % 4 != 0 ==> month_len(year, 2) == 28,
{
    assert(year % 400 == 0 ==> year % 4 == 0);
    assert(year % 100 == 0 ==> year % 4 == 0);
}

/// The time is written with two digits for the hour, of 24, a colon, and two digits for
/// the minute.
pub proof fn time_is_written_in_digits(moment: Moment)
    requires
        moment.wf(),
    ensures
        ({
            let t = moment.time_text();
            &&& t.len() == 5
            &&& t[2] == ':'
            &&& forall|i: int| 0 <= i < 5 && i != 2 ==> '0' <= #[trigger] t[i] <= '9'
            &&& 10 * (t[0] as int - '0' as int) + (t[1] as int - '0' as int) == moment.hour
            &&& 10 * (t[3] as int - '0' as int) + (t[4] as int - '0' as int) == moment.minute
        }),
{
}

/// The date is written as the name of the day of the week, a comma and a space, the
/// name of the month, a space, and the day without a leading zero.
pub proof fn date_is_written_in_words(moment: Moment, day: Seq<char>, month: Seq<char>)
    requires
        moment.wf(),
        moment.weekday() == 0 ==> day == "Monday"@,
        moment.weekday() == 1 ==> day == "Tuesday"@,
        moment.weekday() == 2 ==> day == "Wednesday"@,
        moment.weekday() == 3 ==> day == "Thursday"@,
        moment.weekday() == 4 ==> day == "Friday"@,
        moment.weekday() == 5 ==> day == "Saturday"@,
        moment.weekday() == 6 ==> day == "Sunday"@,
        moment.month == 1 ==> month == "January"@,
        moment.month == 2 ==> month == "February"@,
        moment.month == 3 ==> month == "March"@,
        moment.month == 4 ==> month == "April"@,
        moment.month == 5 ==> month == "May"@,
        moment.month == 6 ==> month == "June"@,
        moment.month == 7 ==> month == "July"@,
        moment.month == 8 ==> month == "August"@,
        moment.month == 9 ==> month == "September"@,
        moment.month == 10 ==> month == "October"@,
        moment.month == 11 ==> month == "November"@,
        moment.month == 12 ==> month == "December"@,
    ensures
        ({
            let text = moment.date_text();
            let head = day + seq![',', ' '] + month + seq![' '];
            let number = text.skip(head.len() as int);
            &&& text.len() == head.len() + (if moment.day < 10 { 1int } else { 2int })
            &&& text.take(head.len() as int) == head
            &&& moment.day < 10 ==> number[0] as int - '0' as int == moment.day
            &&& moment.day >= 10 ==> 10 * (number[0] as int - '0' as int) + (number[1] as int
                - '0' as int) == moment.day
        }),
{
    let head = day + seq![',', ' '] + month + seq![' '];
    assert(moment.date_text().take(head.len() as int) =~= head);
    assert(moment.date_text().skip(head.len() as int) =~= decimal(moment.day as int));
}

/// A minute is one of the calendar where its day is one of its month, its month one of
/// twelve, its hour one of 24 and its minute one of 60, in a year that the calendar
/// reaches.
pub proof fn minutes_of_the_calendar(moment: Moment)
    ensures
        moment.wf() <==> {
            &&& moment.year >= -262143 && moment.year <= 262142
            &&& moment.month >= 1 && moment.month <= 12
            &&& moment.day >= 1
            &&& moment.day <= month_len(moment.year as int, moment.month as int)
            &&& moment.hour <= 23 && moment.minute <= 59
        },
{
}

/// The time and the date that are read off the clock are those of the very minute that the
/// clock of the system showed when it was read: the digits give its hour, of 24, and its
/// minute, and the words its day of the week, its month and its day.
pub proof fn clock_says_what_it_showed(text: ClockText)
    requires
        call_ensures(read_clock, (), text),
    ensures
        exists|moment: Moment, subsec: u32| #[trigger]
            clock_showed(moment, subsec) && moment.wf() && {
                let t = text.time@;
                &&& t.len() == 5 && t[2] == ':'
                &&& forall|i: int| 0 <= i < 5 && i != 2 ==> '0' <= #[trigger] t[i] <= '9'
                &&& 10 * (t[0] as int - '0' as int) + (t[1] as int - '0' as int) == moment.hour
                &&& 10 * (t[3] as int - '0' as int) + (t[4] as int - '0' as int) == moment.minute
                &&& text.date@ == moment.date_text()
            },
{
    let moment = text.moment@;
    let subsec = choose|subsec: u32| clock_showed(moment, subsec);
    time_is_written_in_digits(moment);
    assert(clock_showed(moment, subsec));
}

} // verus!
