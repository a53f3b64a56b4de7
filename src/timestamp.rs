//! A UTC instant held as calendar fields, read from and formatted by chrono.
use crate::text::fixed_digits;
use chrono::{Datelike, Timelike};
use vstd::prelude::*;

verus! {

/// A UTC instant: a proleptic Gregorian date between years 0 and 9999, a time
/// of day and the nanoseconds within the second.
#[derive(Clone, Copy, Debug, PartialEq, Eq, Structural)]
pub struct Timestamp {
    pub year: u32,
    pub month: u32,
    pub day: u32,
    pub hour: u32,
    pub minute: u32,
    pub second: u32,
    pub nanosecond: u32,
}

pub open spec fn is_leap_year(y: int) -> bool {
    (y % 4 == 0 && y % 100 != 0) || y % 400 == 0
}

pub open spec fn days_in_month(y: int, m: int) -> int {
    if m == 2 {
        if is_leap_year(y) {
            29
        } else {
            28
        }
    } else if m == 4 || m == 6 || m == 9 || m == 11 {
        30
    } else {
        31
    }
}

/// Rank of an instant: a later instant has a larger rank.
pub open spec fn instant_rank(t: Timestamp) -> int {
    (((((t.year as int * 12 + t.month as int) * 31 + t.day as int) * 24 + t.hour as int) * 60
        + t.minute as int) * 60 + t.second as int) * 1_000_000_000 + t.nanosecond as int
}

/// `t` as zero-padded year, month and day joined by `-`, then `date_sep`,
/// then hour, minute and second joined by `time_sep`.
pub open spec fn stamp_with(t: Timestamp, date_sep: char, time_sep: char) -> Seq<char> {
    fixed_digits(t.year as nat, 4) + seq!['-'] + fixed_digits(t.month as nat, 2) + seq!['-']
        + fixed_digits(t.day as nat, 2) + seq![date_sep] + fixed_digits(t.hour as nat, 2) + seq![
        time_sep
    ] + fixed_digits(t.minute as nat, 2) + seq![time_sep] + fixed_digits(t.second as nat, 2)
}

/// What chrono's `format` writes for `t` under one of the two patterns.
pub open spec fn formatted_stamp(t: Timestamp, pattern: Seq<char>) -> Seq<char> {
    if pattern == FILE_NAME_PATTERN@ {
        stamp_with(t, '_', '-')
    } else {
        stamp_with(t, ' ', ':')
    }
}

pub open spec fn is_stamp_pattern(p: Seq<char>) -> bool {
    p == FILE_NAME_PATTERN@ || p == DISPLAY_PATTERN@
}

/// Pattern of the default snapshot name.
pub const FILE_NAME_PATTERN: &'static str = "%Y-%m-%d_%H-%M-%S";

/// Pattern of the time in the name of a safety backup.
pub const DISPLAY_PATTERN: &'static str = "%Y-%m-%d %H:%M:%S";

impl Timestamp {
    pub open spec fn wf(&self) -> bool {
        &&& self.year <= 9999
        &&& 1 <= self.month <= 12
        &&& 1 <= self.day <= days_in_month(self.year as int, self.month as int)
        &&& self.hour < 24
        &&& self.minute < 60
        &&& self.second < 60
        &&& self.nanosecond < 1_000_000_000
    }

    /// Builds an instant from calendar fields; `None` where they do not name
    /// an instant of the model.
    pub fn from_parts(
        year: i32,
        month: u32,
        day: u32,
        hour: u32,
        minute: u32,
        second: u32,
        nanosecond: u32,
    ) -> (r: Option<Timestamp>)
        ensures
            r matches Some(t) ==> t.wf() && t.year == year && t.month == month && t.day == day
                && t.hour == hour && t.minute == minute && t.second == second && t.nanosecond
                == nanosecond,
            r is None ==> !(0 <= year <= 9999 && 1 <= month <= 12 && 1 <= day <= days_in_month(
                year as int,
                month as int,
            ) && hour < 24 && minute < 60 && second < 60 && nanosecond < 1_000_000_000),
    {
        if year < 0 || year > 9999 || month < 1 || month > 12 || day < 1 || hour >= 24 || minute
            >= 60 || second >= 60 || nanosecond >= 1_000_000_000 {
            return None;
        }
        let y = year as u32;
        let leap = (y % 4 == 0 && y % 100 != 0) || y % 400 == 0;
        let limit: u32 = if month == 2 {
            if leap {
                29
            } else {
                28
            }
        } else if month == 4 || month == 6 || month == 9 || month == 11 {
            30
        } else {
            31
        };
        if day > limit {
            return None;
        }
        Some(Timestamp { year: y, month, day, hour, minute, second, nanosecond })
    }

    /// Whether the fields name an instant of the model.
    pub fn is_valid(&self) -> (r: bool)
        ensures
            r == self.wf(),
    {
        self.year <= 9999 && Timestamp::from_parts(
            self.year as i32,
            self.month,
            self.day,
            self.hour,
            self.minute,
            self.second,
            self.nanosecond,
        ).is_some()
    }

    /// The rank of this instant, see `instant_rank`.
    pub fn rank(&self) -> (r: u128)
        requires
            self.wf(),
        ensures
            r == instant_rank(*self),
    {
        let a = self.year as u128 * 12 + self.month as u128;
        let b = a * 31 + self.day as u128;
        let c = b * 24 + self.hour as u128;
        let d = c * 60 + self.minute as u128;
        let e = d * 60 + self.second as u128;
        assert(a <= 120_000);
        assert(b <= 4_000_000) by (nonlinear_arith)
            requires
                a <= 120_000,
                b == a * 31 + self.day,
                self.day <= 31,
        ;
        assert(c <= 100_000_000) by (nonlinear_arith)
            requires
                b <= 4_000_000,
                c == b * 24 + self.hour,
                self.hour < 24,
        ;
        assert(d <= 7_000_000_000) by (nonlinear_arith)
            requires
                c <= 100_000_000,
                d == c * 60 + self.minute,
                self.minute < 60,
        ;
        assert(e <= 500_000_000_000) by (nonlinear_arith)
            requires
                d <= 7_000_000_000,
                e == d * 60 + self.second,
                self.second < 60,
        ;
        assert(e * 1_000_000_000 <= 500_000_000_000_000_000_000) by (nonlinear_arith)
            requires
                e <= 500_000_000_000,
        ;
        e * 1_000_000_000 + self.nanosecond as u128
    }

    /// Whether `self` is strictly later than `other`.
    pub fn is_later_than(&self, other: &Timestamp) -> (r: bool)
        requires
            self.wf(),
            other.wf(),
        ensures
            r == (instant_rank(*self) > instant_rank(*other)),
    {
        self.rank() > other.rank()
    }

    /// The current instant, by the system clock; `None` where the clock
    /// reads before 1970 or outside the instants of the model.
    pub fn now() -> (r: Option<Timestamp>)
        ensures
            r matches Some(t) ==> t.wf(),
    {
        let (secs, nanos) = match unix_now() {
            Some(d) => d,
            None => return None,
        };
        if secs > i64::MAX as u64 {
            return None;
        }
        let (year, month, day, hour, minute, second, nanosecond) = match calendar_of(secs as i64, nanos) {
            Some(c) => c,
            None => return None,
        };
        Timestamp::from_parts(year, month, day, hour, minute, second, nanosecond)
    }

    /// `self` under a chrono format pattern.
    pub fn format(&self, pattern: &str) -> (r: String)
        requires
            self.wf(),
            is_stamp_pattern(pattern@),
        ensures
            r@ == formatted_stamp(*self, pattern@),
    {
        format_with_chrono(self, pattern)
    }
}

/// Relies on std's `SystemTime::now` and `SystemTime::duration_since`: the
/// time since the Unix epoch as whole seconds and the nanoseconds within the
/// second (below a billion, as `Duration::subsec_nanos` documents); `None`
/// where the clock reads before the epoch.
#[verifier::external_body]
fn unix_now() -> (r: Option<(u64, u32)>)
    ensures
        r matches Some(d) ==> d.1 < 1_000_000_000,
{
    std::time::SystemTime::now()
        .duration_since(std::time::UNIX_EPOCH)
        .ok()
        .map(|d| (d.as_secs(), d.subsec_nanos()))
}

/// Relies on chrono's `DateTime::from_timestamp` (`None` on a second count
/// out of its range) and its calendar accessors, with the ranges chrono
/// documents for each; a leap second shows as a nanosecond count of a
/// billion or more.
#[verifier::external_body]
fn calendar_of(secs: i64, nanos: u32) -> (r: Option<(i32, u32, u32, u32, u32, u32, u32)>)
    ensures
        r matches Some(c) ==> 1 <= c.1 <= 12 && 1 <= c.2 <= 31 && c.3 < 24 && c.4 < 60 && c.5
            < 60 && c.6 < 2_000_000_000,
{
    chrono::DateTime::from_timestamp(secs, nanos).map(|d| {
        (d.year(), d.month(), d.day(), d.hour(), d.minute(), d.second(), d.nanosecond())
    })
}

/// Relies on chrono's `NaiveDate::from_ymd_opt`, `NaiveDate::and_hms_nano_opt`
/// (both `Some` on a valid date and time) and `DateTime::format`: `%Y` writes
/// a year of 0 to 9999 as four digits, `%m %d %H %M %S` two digits each, and
/// other characters stand as they are.
#[verifier::external_body]
fn format_with_chrono(t: &Timestamp, pattern: &str) -> (r: String)
    requires
        t.wf(),
        is_stamp_pattern(pattern@),
    ensures
        r@ == formatted_stamp(*t, pattern@),
{
    let date = chrono::NaiveDate::from_ymd_opt(t.year as i32, t.month, t.day).unwrap();
    let at = date.and_hms_nano_opt(t.hour, t.minute, t.second, t.nanosecond).unwrap();
    at.and_utc().format(pattern).to_string()
}

} // verus!
