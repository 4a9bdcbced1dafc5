//! Dates and times of day. The calendar, the time-zone database and the text forms
//! are chrono's.
use chrono::{Datelike, Timelike};
use vstd::prelude::*;

verus! {

/// The first day that the calendar reaches.
pub const FIRST_DAY: i32 = -95_746_129;

/// The last day that the calendar reaches.
pub const LAST_DAY: i32 = 95_745_399;

/// The first moment, in seconds since 1970, that every time zone can show.
pub const FIRST_SECOND: i64 = -8_334_601_142_400;

/// The last moment, in seconds since 1970, that every time zone can show.
pub const LAST_SECOND: i64 = 8_210_266_790_399;

/// A calendar day, numbered so that January 1 of the year 1 is day 1.
#[derive(Clone, Copy, Debug, PartialEq, Eq, Structural)]
pub struct Date {
    pub days: i32,
}

/// A time of day: whole seconds since midnight and nanoseconds. During a leap second
/// the nanoseconds go on past a second.
#[derive(Clone, Copy, Debug, PartialEq, Eq, Structural)]
pub struct TimeOfDay {
    pub secs: u32,
    pub nanos: u32,
}

/// A date and a time of day, as a clock on the wall shows them.
#[derive(Clone, Copy, Debug, PartialEq, Eq, Structural)]
pub struct LocalTime {
    pub date: Date,
    pub time: TimeOfDay,
}

impl Date {
    /// Whether the calendar reaches this day.
    pub open spec fn valid(self) -> bool {
        FIRST_DAY <= self.days <= LAST_DAY
    }

    /// The day of the week, with Monday as 0.
    pub open spec fn weekday_number(self) -> int {
        (self.days - 1) % 7
    }
}

impl TimeOfDay {
    /// Whether this is a time that a clock can show.
    pub open spec fn valid(self) -> bool {
        &&& self.secs < 86_400
        &&& self.nanos < 2_000_000_000
        &&& self.nanos >= 1_000_000_000 ==> self.secs % 60 == 59
    }

    /// Whether this time is before another or the same.
    pub open spec fn not_after(self, other: TimeOfDay) -> bool {
        self.secs < other.secs || (self.secs == other.secs && self.nanos <= other.nanos)
    }

    /// The whole seconds from this time to a later one. A leap second that is running
    /// counts as a second of its own.
    pub open spec fn seconds_until(self, end: TimeOfDay) -> int {
        let leap: int = if end.secs > self.secs && self.nanos >= 1_000_000_000 {
            1
        } else {
            0
        };
        (end.secs - self.secs) + leap + (end.nanos - self.nanos) / 1_000_000_000
    }
}

impl LocalTime {
    /// Whether the date and the time are valid.
    pub open spec fn valid(self) -> bool {
        self.date.valid() && self.time.valid()
    }
}

/// The time of day that chrono reads from a text by a format.
pub uninterp spec fn formatted_time(text: Seq<char>, format: Seq<char>) -> Option<TimeOfDay>;

/// The time of day that a text gives by the hour and the minute.
pub open spec fn hour_minute(text: Seq<char>) -> Option<TimeOfDay> {
    formatted_time(text, "%H:%M"@)
}

/// The text that chrono writes for a day.
pub uninterp spec fn date_key(days: i32) -> Seq<char>;

/// The day that chrono reads from a text.
pub uninterp spec fn date_value(text: Seq<char>) -> Option<i32>;

/// What a clock in a named time zone shows at a moment, given in seconds since 1970
/// and nanoseconds.
pub uninterp spec fn zone_time(zone: Seq<char>, secs: i64, nanos: u32) -> Option<LocalTime>;

/// `chrono::NaiveTime::parse_from_str`. The result is a function of the text and the
/// format alone, and a time that a clock can show.
#[verifier::external_body]
fn parse_time(text: &str, format: &str) -> (r: Option<TimeOfDay>)
    ensures
        r == formatted_time(text@, format@),
        r matches Some(t) ==> t.valid(),
{
    let time = chrono::NaiveTime::parse_from_str(text, format).ok()?;
    Some(TimeOfDay { secs: time.num_seconds_from_midnight(), nanos: time.nanosecond() })
}

/// The time of day that a text gives by the hour and the minute.
pub fn parse_hour_minute(text: &str) -> (r: Option<TimeOfDay>)
    ensures
        r == hour_minute(text@),
        r matches Some(t) ==> t.valid(),
{
    parse_time(text, "%H:%M")
}

/// `chrono::NaiveDate`'s `to_string`. The text is a function of the day alone, and
/// parsing it gives the day back.
#[verifier::external_body]
pub(crate) fn date_text(days: i32) -> (r: String)
    requires
        FIRST_DAY <= days <= LAST_DAY,
    ensures
        r@ == date_key(days),
        date_value(r@) == Some(days),
{
    chrono::NaiveDate::from_num_days_from_ce_opt(days).unwrap().to_string()
}

/// `chrono::NaiveDate`'s parser. The result is a function of the text alone, and a day
/// that the calendar reaches.
#[verifier::external_body]
pub(crate) fn parse_date(text: &str) -> (r: Option<i32>)
    ensures
        r == date_value(text@),
        r matches Some(days) ==> FIRST_DAY <= days <= LAST_DAY,
{
    text.parse::<chrono::NaiveDate>().ok().map(|date| date.num_days_from_ce())
}

/// `chrono::NaiveDate::weekday`, counted from Monday. The days of the week follow each
/// other without end, and day 1 is a Monday.
#[verifier::external_body]
pub(crate) fn weekday_from_monday(days: i32) -> (r: u8)
    requires
        FIRST_DAY <= days <= LAST_DAY,
    ensures
        r == (days - 1) % 7,
{
    chrono::NaiveDate::from_num_days_from_ce_opt(days).unwrap().weekday().num_days_from_monday() as u8
}

/// `chrono::DateTime::with_timezone` for a zone of `chrono_tz`, by its name. The result
/// is a function of the name and the moment alone, since the zone database is part of
/// the crate; there is none for a name that the database lacks.
#[verifier::external_body]
pub(crate) fn time_in_zone(zone: &str, secs: i64, nanos: u32) -> (r: Option<LocalTime>)
    requires
        FIRST_SECOND <= secs <= LAST_SECOND,
        nanos < 1_000_000_000,
    ensures
        r == zone_time(zone@, secs, nanos),
        r matches Some(t) ==> t.valid(),
{
    let tz: chrono_tz::Tz = zone.parse().ok()?;
    let now = chrono::DateTime::from_timestamp(secs, nanos)?.with_timezone(&tz);
    let date = Date { days: now.date_naive().num_days_from_ce() };
    let time = TimeOfDay { secs: now.num_seconds_from_midnight(), nanos: now.nanosecond() };
    Some(LocalTime { date, time })
}

impl Date {
    /// The text under which the values of a day are kept.
    pub fn key(&self) -> (r: String)
        requires
            self.valid(),
        ensures
            r@ == date_key(self.days),
            date_value(r@) == Some(self.days),
    {
        date_text(self.days)
    }

    /// The day that a text names.
    pub fn from_key(text: &str) -> (r: Option<Date>)
        ensures
            r == match date_value(text@) {
                Some(days) => Some(Date { days }),
                None => None,
            },
            r matches Some(d) ==> d.valid(),
    {
        match parse_date(text) {
            Some(days) => Some(Date { days }),
            None => None,
        }
    }

    /// The day of the week, with Monday as 0.
    pub fn weekday(&self) -> (r: u8)
        requires
            self.valid(),
        ensures
            r == self.weekday_number(),
    {
        weekday_from_monday(self.days)
    }
}

impl TimeOfDay {
    /// Whether this time is before another or the same.
    pub fn up_to(&self, other: &TimeOfDay) -> (r: bool)
        ensures
            r == self.not_after(*other),
    {
        self.secs < other.secs || (self.secs == other.secs && self.nanos <= other.nanos)
    }

    /// The whole seconds from this time to a later one.
    pub fn until(&self, end: &TimeOfDay) -> (r: i64)
        requires
            self.valid(),
            end.valid(),
            self.not_after(*end),
        ensures
            r == self.seconds_until(*end),
            0 <= r <= 86_401,
    {
        let leap: i64 = if end.secs > self.secs && self.nanos >= 1_000_000_000 {
            1
        } else {
            0
        };
        let whole: i64 = end.secs as i64 - self.secs as i64 + leap;
        if end.nanos >= self.nanos {
            whole + ((end.nanos - self.nanos) / 1_000_000_000) as i64
        } else if self.nanos - end.nanos <= 1_000_000_000 {
            whole - 1
        } else {
            whole - 2
        }
    }
}

impl LocalTime {
    /// What a clock in a named time zone shows at a moment; `None` where there is no
    /// such zone.
    pub fn in_zone(zone: &str, secs: i64, nanos: u32) -> (r: Option<LocalTime>)
        requires
            FIRST_SECOND <= secs <= LAST_SECOND,
            nanos < 1_000_000_000,
        ensures
            r == zone_time(zone@, secs, nanos),
            r matches Some(t) ==> t.valid(),
    {
        time_in_zone(zone, secs, nanos)
    }
}

/// The days of the week follow each other: a week later it is the same one, and the day after is the
/// next, Monday after Sunday. Day one is a Monday.
pub proof fn law_weekdays_follow_each_other(d: Date, next: Date, week: Date)
    requires
        next.days == d.days + 1,
        week.days == d.days + 7,
    ensures
        0 <= d.weekday_number() <= 6,
        week.weekday_number() == d.weekday_number(),
        d.weekday_number() < 6 ==> next.weekday_number() == d.weekday_number() + 1,
        d.weekday_number() == 6 ==> next.weekday_number() == 0,
        d.days == 1 ==> d.weekday_number() == 0,
{
}

/// A time is before another or the same exactly where not more nanoseconds have passed since
/// midnight, a leap second counted with the second that it follows.
pub proof fn law_times_are_ordered(a: TimeOfDay, b: TimeOfDay)
    requires
        a.valid(),
        b.valid(),
    ensures
        a.not_after(b) <==> a.secs * 2_000_000_000 + a.nanos <= b.secs * 2_000_000_000 + b.nanos,
{
}

/// The seconds to a later time are as many whole ones as fit between the two, where no leap second
/// runs at first, or the later time is in the same one.
pub proof fn law_whole_seconds_lie_between(a: TimeOfDay, b: TimeOfDay)
    requires
        a.valid(),
        b.valid(),
        a.nanos < 1_000_000_000 || a.secs == b.secs,
        a.not_after(b),
    ensures
        0 <= (b.secs * 1_000_000_000 + b.nanos) - (a.secs * 1_000_000_000 + a.nanos) - a.seconds_until(b)
            * 1_000_000_000 < 1_000_000_000,
{
    let d = b.nanos - a.nanos;
    assert(d >= 1_000_000_000 ==> d / 1_000_000_000 == 1);
    assert(0 <= d < 1_000_000_000 ==> d / 1_000_000_000 == 0);
    assert(d < 0 ==> d / 1_000_000_000 == -1);
}

/// While a leap second runs, a later second is as far away as it was a second before, when the leap
/// second had not begun: the leap second counts as one of its own.
pub proof fn law_running_leap_seconds_count(a: TimeOfDay, b: TimeOfDay)
    requires
        a.valid(),
        b.valid(),
        a.nanos >= 1_000_000_000,
        a.secs < b.secs,
    ensures
        a.seconds_until(b) == (TimeOfDay { secs: a.secs, nanos: (a.nanos - 1_000_000_000) as u32 }).seconds_until(b),
{
    let d = b.nanos - a.nanos;
    assert((d + 1_000_000_000) / 1_000_000_000 == d / 1_000_000_000 + 1);
}

/// Times are read by the hour of the day and the minute.
pub proof fn law_times_are_read_by_hour_and_minute(text: Seq<char>)
    ensures
        hour_minute(text) == formatted_time(text, seq!['%', 'H', ':', '%', 'M']),
{
    reveal_strlit("%H:%M");
    assert("%H:%M"@ =~= seq!['%', 'H', ':', '%', 'M']);
}

} // verus!
